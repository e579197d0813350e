//! Remediation planning: which rules to fix first.
//!
//! Weights and efforts are fractions; they are held as whole numbers: weights in
//! tenths, efforts in halves, and scores, their products, in twentieths.

use crate::config::BANNER_WIDTH;
use crate::models::{
    count_of, count_selected, display_path, law_counted_severities_occur, opt_str, ref_views, shown_path,
    Issue, IssueView, RemediationStep, Severity,
};
use crate::order::{
    lemma_flat_map_contains, lemma_sorted, ordered, sort_by, sort_texts, sorted, sorted_texts, total_preorder,
};
use crate::text::{
    add_text, at_left, at_right, count_text, dec, decimal, distinct_texts, left_aligned,
    lemma_distinct_texts, repeat, repeated, right_aligned, same, texts,
};
use vstd::prelude::*;
use vstd::string::*;

verus! {

// ── Weights and efforts ─────────────────────────────────────────────────────

/// How much a finding weighs, in tenths.
pub open spec fn weight(s: Severity) -> nat {
    match s {
        Severity::Error => 60,
        Severity::Warning => 15,
        Severity::Info => 3,
    }
}

/// How much a finding weighs, in tenths.
pub fn severity_weight(s: Severity) -> (r: u32)
    ensures
        r == weight(s),
{
    match s {
        Severity::Error => 60,
        Severity::Warning => 15,
        Severity::Info => 3,
    }
}

/// How much effort it takes to fix a finding of a rule, in halves.
pub open spec fn effort(rule: Seq<char>) -> nat {
    if rule == "import-cycle"@ || rule == "god-class"@ {
        10
    } else if rule == "layer-violation"@ || rule == "transport-in-library"@
        || rule == "god-module"@ {
        8
    } else if rule == "sync-async-duplication"@ || rule == "duplicate-function-body"@
        || rule == "high-complexity"@ || rule == "deep-inheritance"@ {
        6
    } else if rule == "long-function"@ || rule == "potential-circular-import"@
        || rule == "long-file"@ {
        5
    } else if rule == "deep-nesting"@ || rule == "too-many-params"@ || rule == "scope-mutation"@ {
        4
    } else if rule == "boolean-flag-params"@ || rule == "excessive-returns"@
        || rule == "swallowed-exception"@ || rule == "global-mutable"@
        || rule == "lazy-class"@ || rule == "orphan-interface"@ {
        3
    } else if rule == "missing-param-type"@ || rule == "untyped-dict"@ || rule == "unused-import"@
        || rule == "star-import"@ || rule == "mutable-default"@ || rule == "todo-marker"@
        || rule == "dead-code"@ || rule == "magic-number"@ || rule == "missing-else"@ {
        1
    } else {
        2
    }
}

/// How much effort it takes to fix a finding of a rule, in halves.
pub fn fix_effort(rule: &str) -> (r: u32)
    ensures
        r == effort(rule@),
        r <= 10,
{
    if same(rule, "import-cycle") || same(rule, "god-class") {
        10
    } else if same(rule, "layer-violation") || same(rule, "transport-in-library")
        || same(rule, "god-module") {
        8
    } else if same(rule, "sync-async-duplication") || same(rule, "duplicate-function-body")
        || same(rule, "high-complexity") || same(rule, "deep-inheritance") {
        6
    } else if same(rule, "long-function") || same(rule, "potential-circular-import")
        || same(rule, "long-file") {
        5
    } else if same(rule, "deep-nesting") || same(rule, "too-many-params")
        || same(rule, "scope-mutation") {
        4
    } else if same(rule, "boolean-flag-params") || same(rule, "excessive-returns")
        || same(rule, "swallowed-exception") || same(rule, "global-mutable")
        || same(rule, "lazy-class") || same(rule, "orphan-interface") {
        3
    } else if same(rule, "missing-param-type") || same(rule, "untyped-dict")
        || same(rule, "unused-import") || same(rule, "star-import")
        || same(rule, "mutable-default") || same(rule, "todo-marker")
        || same(rule, "dead-code") || same(rule, "magic-number")
        || same(rule, "missing-else") {
        1
    } else {
        2
    }
}

/// The priority score of a severity and a rule, in twentieths: weight times effort.
pub open spec fn priority_score(severity: Severity, rule: Seq<char>) -> nat {
    weight(severity) * effort(rule)
}

fn score_of(severity: Severity, rule: &str) -> (r: u32)
    ensures
        r == priority_score(severity, rule@),
{
    let w: u32 = severity_weight(severity);
    let e: u32 = fix_effort(rule);
    assert(w * e <= 600) by (nonlinear_arith)
        requires
            w <= 60,
            e <= 10,
    ;
    w * e
}

/// The priority score of a finding, in twentieths.
pub fn compute_priority_score(issue: &Issue) -> (r: u32)
    ensures
        r == priority_score(issue.severity, issue.rule@),
{
    score_of(issue.severity, issue.rule)
}

/// The word for an effort in halves.
pub open spec fn effort_word(effort: nat) -> Seq<char> {
    if effort >= 8 {
        "major"@
    } else if effort >= 5 {
        "moderate"@
    } else if effort >= 2 {
        "minor"@
    } else {
        "trivial"@
    }
}

/// The word for an effort in halves.
pub fn effort_label(effort: u32) -> (r: &'static str)
    ensures
        r@ == effort_word(effort as nat),
{
    if effort >= 8 {
        "major"
    } else if effort >= 5 {
        "moderate"
    } else if effort >= 2 {
        "minor"
    } else {
        "trivial"
    }
}

// ── Priority levels ─────────────────────────────────────────────────────────

/// How many levels of priority there are.
pub const LEVELS: usize = 4;

/// The level of a score in twentieths: 0 for the most urgent.
pub open spec fn level(score: nat) -> nat {
    if score >= 240 {
        0
    } else if score >= 140 {
        1
    } else if score >= 60 {
        2
    } else {
        3
    }
}

/// The name of a level.
pub open spec fn level_name(level: nat) -> Seq<char> {
    if level == 0 {
        "P0"@
    } else if level == 1 {
        "P1"@
    } else if level == 2 {
        "P2"@
    } else {
        "P3"@
    }
}

/// What a level asks for.
pub open spec fn level_advice(level: nat) -> Seq<char> {
    if level == 0 {
        "CRITICAL — fix immediately"@
    } else if level == 1 {
        "HIGH — fix this sprint"@
    } else if level == 2 {
        "MEDIUM — plan for next cycle"@
    } else {
        "LOW — track in backlog"@
    }
}

fn level_words(level: usize) -> (r: (&'static str, &'static str))
    ensures
        r.0@ == level_name(level as nat),
        r.1@ == level_advice(level as nat),
{
    if level == 0 {
        ("P0", "CRITICAL — fix immediately")
    } else if level == 1 {
        ("P1", "HIGH — fix this sprint")
    } else if level == 2 {
        ("P2", "MEDIUM — plan for next cycle")
    } else {
        ("P3", "LOW — track in backlog")
    }
}

fn level_of(score: u32) -> (r: usize)
    ensures
        r == level(score as nat),
{
    if score >= 240 {
        0
    } else if score >= 140 {
        1
    } else if score >= 60 {
        2
    } else {
        3
    }
}

/// The name of the level of a score in twentieths, and what the level asks for.
pub fn priority_label(score: u32) -> (r: (&'static str, &'static str))
    ensures
        r.0@ == level_name(level(score as nat)),
        r.1@ == level_advice(level(score as nat)),
{
    level_words(level_of(score))
}

// ── Plans ───────────────────────────────────────────────────────────────────

/// What a `RemediationStep` says.
pub struct StepView {
    pub priority: Seq<char>,
    pub rule: Seq<char>,
    pub severity: Severity,
    pub effort: Seq<char>,
    pub files: Seq<Seq<char>>,
    pub count: nat,
    pub description: Seq<char>,
    pub score: nat,
}

/// What a `RemediationStep` says.
pub open spec fn step_view() -> spec_fn(RemediationStep) -> StepView {
    |s: RemediationStep|
        StepView {
            priority: s.priority@,
            rule: s.rule@,
            severity: s.severity,
            effort: s.effort@,
            files: texts(s.files@),
            count: s.count as nat,
            description: s.description@,
            score: s.score as nat,
        }
}

/// What a list of steps says.
pub open spec fn step_views(v: Seq<RemediationStep>) -> Seq<StepView> {
    v.map_values(step_view())
}

/// The rule of a finding.
pub open spec fn rule_of() -> spec_fn(IssueView) -> Seq<char> {
    |i: IssueView| i.rule
}

/// The rules of findings, in the order in which they come first.
pub open spec fn rules(issues: Seq<IssueView>) -> Seq<Seq<char>> {
    distinct_texts(issues.map_values(rule_of()))
}

/// The finding, if it is of the rule.
pub open spec fn if_rule(rule: Seq<char>) -> spec_fn(IssueView) -> Seq<IssueView> {
    |i: IssueView|
        if i.rule == rule {
            seq![i]
        } else {
            seq![]
        }
}

/// The findings of a rule.
pub open spec fn of_rule(issues: Seq<IssueView>, rule: Seq<char>) -> Seq<IssueView> {
    issues.flat_map(if_rule(rule))
}

/// The highest severity of findings.
pub open spec fn worst(issues: Seq<IssueView>) -> Severity {
    if count_of(issues, Severity::Error) > 0 {
        Severity::Error
    } else if count_of(issues, Severity::Warning) > 0 {
        Severity::Warning
    } else {
        Severity::Info
    }
}

/// The files of findings, each once, in order.
pub open spec fn files_of(issues: Seq<IssueView>, root: Option<Seq<char>>) -> Seq<Seq<char>> {
    sorted_texts(distinct_texts(issues.map_values(|i: IssueView| shown_path(i.file, root))))
}

/// The step that fixes a rule.
pub open spec fn step_for(issues: Seq<IssueView>, root: Option<Seq<char>>) -> spec_fn(
    Seq<char>,
) -> StepView {
    |rule: Seq<char>|
        {
            let own = of_rule(issues, rule);
            let severity = worst(own);
            let score = priority_score(severity, rule);
            StepView {
                priority: level_name(level(score)),
                rule,
                severity,
                effort: effort_word(effort(rule)),
                files: files_of(own, root),
                count: own.len(),
                description: own[0].message,
                score,
            }
        }
}

/// The order of steps: the higher score first, then the higher count.
pub open spec fn by_urgency() -> spec_fn(StepView, StepView) -> bool {
    |a: StepView, b: StepView| a.score > b.score || (a.score == b.score && a.count >= b.count)
}

/// The plan for findings: a step for each rule, the most urgent first.
pub open spec fn plan(issues: Seq<IssueView>, root: Option<Seq<char>>) -> Seq<StepView> {
    sorted(rules(issues).map_values(step_for(issues, root)), by_urgency())
}

fn collect_rules(issues: &Vec<&Issue>) -> (r: Vec<String>)
    ensures
        texts(r@) == rules(ref_views(issues@)),
{
    let ghost f = rule_of();
    let ghost all = ref_views(issues@).map_values(f);
    let mut out: Vec<String> = Vec::new();
    let mut i: usize = 0;
    assert(texts(out@) =~= distinct_texts(all.take(0)));
    while i < issues.len()
        invariant
            i <= issues@.len(),
            f == rule_of(),
            all == ref_views(issues@).map_values(f),
            texts(out@) == distinct_texts(all.take(i as int)),
        decreases issues@.len() - i,
    {
        proof {
            assert(all.take(i + 1).drop_last() =~= all.take(i as int));
            assert(all[i as int] == issues@[i as int].rule@);
        }
        add_text(&mut out, issues[i].rule);
        i += 1;
    }
    assert(all.take(i as int) =~= all);
    out
}

fn collect_of_rule<'a>(issues: &Vec<&'a Issue>, rule: &str) -> (r: Vec<&'a Issue>)
    ensures
        ref_views(r@) == of_rule(ref_views(issues@), rule@),
{
    let ghost all = ref_views(issues@);
    let ghost f = if_rule(rule@);
    let mut out: Vec<&'a Issue> = Vec::new();
    let mut i: usize = 0;
    assert(ref_views(out@) =~= all.take(0).flat_map(f));
    while i < issues.len()
        invariant
            i <= issues@.len(),
            all == ref_views(issues@),
            f == if_rule(rule@),
            ref_views(out@) == all.take(i as int).flat_map(f),
        decreases issues@.len() - i,
    {
        let x = issues[i];
        let ghost before = ref_views(out@);
        proof {
            all.lemma_flat_map_take_append(f, i as int);
            assert(all[i as int] == x@);
            assert(before + seq![] =~= before);
        }
        if same(x.rule, rule) {
            out.push(x);
            assert(ref_views(out@) =~= before + seq![x@]);
        }
        i += 1;
    }
    assert(all.take(i as int) =~= all);
    out
}

fn worst_of(issues: &Vec<&Issue>) -> (r: Severity)
    ensures
        r == worst(ref_views(issues@)),
{
    if count_selected(issues, Severity::Error) > 0 {
        Severity::Error
    } else if count_selected(issues, Severity::Warning) > 0 {
        Severity::Warning
    } else {
        Severity::Info
    }
}

fn collect_files(issues: &Vec<&Issue>, workspace_root: Option<&str>) -> (r: Vec<String>)
    ensures
        texts(r@) == files_of(ref_views(issues@), opt_str(workspace_root)),
{
    let ghost root = opt_str(workspace_root);
    let ghost f = |i: IssueView| shown_path(i.file, root);
    let ghost all = ref_views(issues@).map_values(f);
    let mut out: Vec<String> = Vec::new();
    let mut i: usize = 0;
    assert(texts(out@) =~= distinct_texts(all.take(0)));
    while i < issues.len()
        invariant
            i <= issues@.len(),
            root == opt_str(workspace_root),
            f == (|i: IssueView| shown_path(i.file, root)),
            all == ref_views(issues@).map_values(f),
            texts(out@) == distinct_texts(all.take(i as int)),
        decreases issues@.len() - i,
    {
        proof {
            assert(all.take(i + 1).drop_last() =~= all.take(i as int));
            assert(all[i as int] == shown_path(issues@[i as int].file@, root));
        }
        let shown = display_path(issues[i].file.as_str(), workspace_root);
        add_text(&mut out, shown.as_str());
        i += 1;
    }
    assert(all.take(i as int) =~= all);
    sort_texts(&out)
}

proof fn lemma_rule_has_findings(issues: Seq<IssueView>, rule: Seq<char>)
    requires
        rules(issues).contains(rule),
    ensures
        of_rule(issues, rule).len() > 0,
    decreases issues.len(),
{
    let f = rule_of();
    let g = if_rule(rule);
    let all = issues.map_values(f);
    lemma_distinct_texts(all);
    assert(all.contains(rule));
    let k = all.index_of(rule);
    let rest = issues.drop_last();
    rest.lemma_flat_map_push(g, issues.last());
    assert(issues =~= rest.push(issues.last()));
    if k < rest.len() {
        lemma_distinct_texts(rest.map_values(f));
        assert(all[k] == f(issues[k]));
        assert(rest.map_values(f)[k] == rule);
        assert(rest.map_values(f).contains(rule));
        lemma_rule_has_findings(rest, rule);
    } else {
        assert(issues.last().rule == rule);
    }
}

fn make_step(issues: &Vec<&Issue>, rule: &str, workspace_root: Option<&str>) -> (r: RemediationStep)
    requires
        rules(ref_views(issues@)).contains(rule@),
    ensures
        step_view()(r) == step_for(ref_views(issues@), opt_str(workspace_root))(rule@),
{
    let own = collect_of_rule(issues, rule);
    proof {
        lemma_rule_has_findings(ref_views(issues@), rule@);
        assert(ref_views(own@).len() == own@.len());
        assert(ref_views(own@)[0] == own@[0]@);
        lemma_own_rule(ref_views(issues@), rule@, 0);
    }
    let name: &'static str = own[0].rule;
    let severity = worst_of(&own);
    let score: u32 = score_of(severity, name);
    let (priority, _advice) = priority_label(score);
    RemediationStep {
        priority,
        rule: name,
        severity,
        effort: effort_label(fix_effort(name)),
        files: collect_files(&own, workspace_root),
        count: own.len(),
        description: own[0].message.clone(),
        score,
    }
}

proof fn lemma_own_rule(issues: Seq<IssueView>, rule: Seq<char>, i: int)
    requires
        0 <= i < of_rule(issues, rule).len(),
    ensures
        of_rule(issues, rule)[i].rule == rule,
    decreases issues.len(),
{
    let f = if_rule(rule);
    if issues.len() == 0 {
        assert(issues.flat_map(f) =~= seq![]);
    } else {
        let rest = issues.drop_last();
        rest.lemma_flat_map_push(f, issues.last());
        assert(issues =~= rest.push(issues.last()));
        if i < of_rule(rest, rule).len() {
            lemma_own_rule(rest, rule, i);
        }
    }
}

/// The plan for findings: a step for each rule, the most urgent first.
pub fn build_remediation_plan(issues: &Vec<&Issue>, workspace_root: Option<&str>) -> (r: Vec<
    RemediationStep,
>)
    ensures
        step_views(r@) == plan(ref_views(issues@), opt_str(workspace_root)),
{
    let names = collect_rules(issues);
    let ghost all = texts(names@);
    let ghost f = step_for(ref_views(issues@), opt_str(workspace_root));
    let mut steps: Vec<RemediationStep> = Vec::new();
    let mut i: usize = 0;
    while i < names.len()
        invariant
            i <= names@.len(),
            all == texts(names@),
            all == rules(ref_views(issues@)),
            f == step_for(ref_views(issues@), opt_str(workspace_root)),
            step_views(steps@) == all.take(i as int).map_values(f),
        decreases names@.len() - i,
    {
        assert(all[i as int] == names@[i as int]@);
        assert(all.contains(names@[i as int]@));
        let step = make_step(issues, names[i].as_str(), workspace_root);
        let ghost before = step_views(steps@);
        steps.push(step);
        assert(step_views(steps@) =~= before.push(step_view()(step)));
        assert(all.take(i + 1).map_values(f) =~= before.push(f(all[i as int])));
        i += 1;
    }
    assert(all.take(i as int) =~= all);
    let le = |a: &RemediationStep, b: &RemediationStep| -> (x: bool)
        ensures
            x == by_urgency()(step_view()(*a), step_view()(*b)),
        { a.score > b.score || (a.score == b.score && a.count >= b.count) };
    sort_by::<RemediationStep, StepView, _>(steps, le, Ghost(step_view()), Ghost(by_urgency()))
}

// ── Laws ────────────────────────────────────────────────────────────────────

proof fn lemma_by_urgency_is_total()
    ensures
        total_preorder(by_urgency()),
{
}

/// The steps of a plan come with falling scores and, where scores are equal, with
/// falling counts.
pub proof fn law_plan_is_ordered(issues: Seq<IssueView>, root: Option<Seq<char>>)
    ensures
        ordered(plan(issues, root), by_urgency()),
{
    lemma_by_urgency_is_total();
    lemma_sorted(rules(issues).map_values(step_for(issues, root)), by_urgency());
}

/// A plan has one step for each rule that was broken.
pub proof fn law_plan_has_a_step_for_each_rule(issues: Seq<IssueView>, root: Option<Seq<char>>)
    ensures
        plan(issues, root).len() == rules(issues).len(),
        rules(issues).no_duplicates(),
        forall|i: int|
            0 <= i < issues.len() ==> plan(issues, root).contains(
                step_for(issues, root)((#[trigger] issues[i]).rule),
            ),
{
    let f = step_for(issues, root);
    let steps = rules(issues).map_values(f);
    lemma_by_urgency_is_total();
    lemma_sorted(steps, by_urgency());
    lemma_distinct_texts(issues.map_values(rule_of()));
    broadcast use vstd::seq_lib::to_multiset_contains;
    assert forall|i: int| 0 <= i < issues.len() implies plan(issues, root).contains(
        f((#[trigger] issues[i]).rule),
    ) by {
        let rule = issues[i].rule;
        assert(issues.map_values(rule_of())[i] == rule);
        assert(issues.map_values(rule_of()).contains(rule));
        assert(rules(issues).contains(rule));
        let k = rules(issues).index_of(rule);
        assert(steps[k] == f(rule));
        assert(steps.contains(f(rule)));
        assert(steps.to_multiset().count(f(rule)) > 0);
        assert(plan(issues, root).to_multiset().count(f(rule)) > 0);
    }
}

/// The higher of two scores is at least as urgent.
pub proof fn law_urgency_follows_scores(a: nat, b: nat)
    requires
        a <= b,
    ensures
        level(b) <= level(a),
{
}

/// A more severe finding of a rule scores higher.
pub proof fn law_score_follows_severity(rule: Seq<char>)
    ensures
        priority_score(Severity::Info, rule) < priority_score(Severity::Warning, rule),
        priority_score(Severity::Warning, rule) < priority_score(Severity::Error, rule),
{
    assert(effort(rule) > 0);
    let e = effort(rule);
    assert(3 * e < 15 * e && 15 * e < 60 * e) by (nonlinear_arith)
        requires
            e > 0,
    ;
}

// ── The report ──────────────────────────────────────────────────────────────

/// A score in twentieths, rounded to tenths. A half goes to the even neighbour; but
/// 0.15 is shown as 0.1, as the nearest binary fraction is.
pub open spec fn tenths(score: nat) -> nat {
    let half = score / 2;
    if score % 2 == 0 || half % 2 == 0 || score == 3 {
        half
    } else {
        half + 1
    }
}

/// A score in twentieths as text with one decimal.
pub open spec fn score_text(score: nat) -> Seq<char> {
    dec(tenths(score) / 10) + "."@ + dec(tenths(score) % 10)
}

fn show_score(score: u32) -> (r: String)
    ensures
        r@ == score_text(score as nat),
{
    let half: u32 = score / 2;
    let t: u32 = if score % 2 == 0 || half % 2 == 0 || score == 3 {
        half
    } else {
        half + 1
    };
    decimal((t / 10) as u128).concat(".").concat(decimal((t % 10) as u128).as_str())
}

/// A row of the plan's table.
pub open spec fn row(
    number: Seq<char>,
    priority: Seq<char>,
    rule: Seq<char>,
    icon: Seq<char>,
    effort: Seq<char>,
    count: Seq<char>,
    score: Seq<char>,
) -> Seq<char> {
    "  "@ + at_left(number, 3) + " "@ + at_left(priority, 4) + " "@ + at_left(rule, 30) + " "@
        + at_left(icon, 4) + " "@ + at_left(effort, 9) + " "@ + at_right(count, 6) + "  "@
        + at_right(score, 5) + "\n"@
}

fn make_row(
    number: &str,
    priority: &str,
    rule: &str,
    icon: &str,
    effort: &str,
    count: &str,
    score: &str,
) -> (r: String)
    ensures
        r@ == row(number@, priority@, rule@, icon@, effort@, count@, score@),
{
    "  ".to_owned().concat(left_aligned(number, 3).as_str()).concat(" ").concat(
        left_aligned(priority, 4).as_str(),
    ).concat(" ").concat(left_aligned(rule, 30).as_str()).concat(" ").concat(
        left_aligned(icon, 4).as_str(),
    ).concat(" ").concat(left_aligned(effort, 9).as_str()).concat(" ").concat(
        right_aligned(count, 6).as_str(),
    ).concat("  ").concat(right_aligned(score, 5).as_str()).concat("\n")
}

/// The sign for a severity.
pub open spec fn icon(s: Severity) -> Seq<char> {
    match s {
        Severity::Error => "✖"@,
        Severity::Warning => "⚠"@,
        Severity::Info => "ℹ"@,
    }
}

/// The sign for a severity.
pub fn severity_icon(s: Severity) -> (r: &'static str)
    ensures
        r@ == icon(s),
{
    match s {
        Severity::Error => "✖",
        Severity::Warning => "⚠",
        Severity::Info => "ℹ",
    }
}

/// A heading between two rules, and an empty line.
pub open spec fn heading(title: Seq<char>) -> Seq<char> {
    repeat('=', BANNER_WIDTH as nat) + "\n  "@ + title + "\n"@ + repeat('=', BANNER_WIDTH as nat)
        + "\n\n"@
}

/// A heading between two rules, and an empty line.
pub fn make_heading(title: &str) -> (r: String)
    ensures
        r@ == heading(title@),
{
    let bar = repeated('=', BANNER_WIDTH);
    bar.clone().concat("\n  ").concat(title).concat("\n").concat(bar.as_str()).concat("\n\n")
}

/// How many steps have a priority.
pub open spec fn count_priority(steps: Seq<StepView>, priority: Seq<char>) -> nat
    decreases steps.len(),
{
    if steps.len() == 0 {
        0
    } else {
        count_priority(steps.drop_last(), priority) + if steps.last().priority == priority {
            1nat
        } else {
            0nat
        }
    }
}

fn count_steps(steps: &Vec<RemediationStep>, priority: &str) -> (r: usize)
    ensures
        r == count_priority(step_views(steps@), priority@),
{
    let ghost all = step_views(steps@);
    let mut n: usize = 0;
    let mut i: usize = 0;
    while i < steps.len()
        invariant
            i <= steps@.len(),
            all == step_views(steps@),
            n <= i,
            n == count_priority(all.take(i as int), priority@),
        decreases steps@.len() - i,
    {
        assert(all.take(i + 1).drop_last() =~= all.take(i as int));
        assert(all.take(i + 1).last() == step_view()(steps@[i as int]));
        if same(steps[i].priority, priority) {
            n += 1;
        }
        i += 1;
    }
    assert(all.take(i as int) =~= all);
    n
}

/// The number of rules of each level below `to`, where there are any.
pub open spec fn breakdown(steps: Seq<StepView>, to: nat) -> Seq<char>
    decreases to,
{
    if to == 0 {
        seq![]
    } else {
        let k = (to - 1) as nat;
        let n = count_priority(steps, level_name(k));
        breakdown(steps, k) + (if n > 0 {
            "    "@ + level_name(k) + ": "@ + dec(n) + " rule(s) — "@ + level_advice(k) + "\n"@
        } else {
            seq![]
        })
    }
}

fn write_breakdown(steps: &Vec<RemediationStep>) -> (r: String)
    ensures
        r@ == breakdown(step_views(steps@), LEVELS as nat),
{
    let ghost all = step_views(steps@);
    let mut out = String::new();
    assert(out@ =~= seq![]);
    let mut k: usize = 0;
    while k < LEVELS
        invariant
            k <= LEVELS,
            all == step_views(steps@),
            out@ == breakdown(all, k as nat),
        decreases LEVELS - k,
    {
        let (name, advice) = level_words(k);
        let n: usize = count_steps(steps, name);
        if n > 0 {
            let line = "    ".to_owned().concat(name).concat(": ").concat(
                count_text(n).as_str(),
            ).concat(" rule(s) — ").concat(advice).concat("\n");
            out = out.concat(line.as_str());
        } else {
            assert(out@ + seq![] =~= out@);
        }
        k += 1;
    }
    out
}

/// The files of a step in short.
pub open spec fn preview(files: Seq<Seq<char>>) -> Seq<char> {
    (if files.len() > 0 {
        files[0]
    } else {
        "?"@
    }) + (if files.len() > 1 {
        " +"@ + dec((files.len() - 1) as nat)
    } else {
        seq![]
    })
}

fn make_preview(files: &Vec<String>) -> (r: String)
    ensures
        r@ == preview(texts(files@)),
{
    let ghost all = texts(files@);
    let n: usize = files.len();
    if n == 0 {
        assert("?"@ + seq![] =~= "?"@);
        return "?".to_owned();
    }
    assert(all[0] == files@[0]@);
    let first = files[0].clone();
    if n > 1 {
        let rest = " +".to_owned().concat(count_text(n - 1).as_str());
        first.concat(rest.as_str())
    } else {
        assert(first@ + seq![] =~= first@);
        first
    }
}

/// The lines of the table for the first `n` steps.
pub open spec fn table(steps: Seq<StepView>, n: nat) -> Seq<char>
    decreases n,
{
    if n == 0 {
        seq![]
    } else {
        let s = steps[n - 1];
        table(steps, (n - 1) as nat) + row(
            dec(n),
            s.priority,
            s.rule,
            icon(s.severity),
            s.effort,
            dec(s.count),
            score_text(s.score),
        ) + "      └─ "@ + preview(s.files) + "\n"@
    }
}

fn write_table(steps: &Vec<RemediationStep>, shown: usize) -> (r: String)
    requires
        shown <= steps@.len(),
    ensures
        r@ == table(step_views(steps@), shown as nat),
{
    let ghost all = step_views(steps@);
    let mut out = String::new();
    assert(out@ =~= seq![]);
    let mut i: usize = 0;
    while i < shown
        invariant
            i <= shown <= steps@.len(),
            all == step_views(steps@),
            out@ == table(all, i as nat),
        decreases shown - i,
    {
        let s = &steps[i];
        assert(all[i as int] == step_view()(*s));
        let line = make_row(
            count_text(i + 1).as_str(),
            s.priority,
            s.rule,
            severity_icon(s.severity),
            s.effort,
            count_text(s.count).as_str(),
            show_score(s.score).as_str(),
        );
        out = out.concat(line.as_str()).concat("      └─ ").concat(
            make_preview(&s.files).as_str(),
        ).concat("\n");
        i += 1;
    }
    out
}

/// The rules of a level among the first `n` steps.
pub open spec fn level_lines(steps: Seq<StepView>, priority: Seq<char>, n: nat) -> Seq<char>
    decreases n,
{
    if n == 0 {
        seq![]
    } else {
        let s = steps[n - 1];
        level_lines(steps, priority, (n - 1) as nat) + (if s.priority == priority {
            "    • "@ + s.rule + " ("@ + dec(s.count) + " issue"@ + (if s.count != 1 {
                "s"@
            } else {
                seq![]
            }) + ", "@ + s.effort + " effort)\n"@
        } else {
            seq![]
        })
    }
}

fn write_level(steps: &Vec<RemediationStep>, priority: &str) -> (r: String)
    ensures
        r@ == level_lines(step_views(steps@), priority@, steps@.len()),
{
    let ghost all = step_views(steps@);
    let mut out = String::new();
    assert(out@ =~= seq![]);
    let mut i: usize = 0;
    while i < steps.len()
        invariant
            i <= steps@.len(),
            all == step_views(steps@),
            out@ == level_lines(all, priority@, i as nat),
        decreases steps@.len() - i,
    {
        let s = &steps[i];
        assert(all[i as int] == step_view()(*s));
        if same(s.priority, priority) {
            let plural = if s.count != 1 {
                "s".to_owned()
            } else {
                String::new()
            };
            assert(s.count == 1 ==> plural@ =~= seq![]);
            let line = "    • ".to_owned().concat(s.rule).concat(" (").concat(
                count_text(s.count).as_str(),
            ).concat(" issue").concat(plural.as_str()).concat(", ").concat(s.effort).concat(
                " effort)\n",
            );
            out = out.concat(line.as_str());
        } else {
            assert(out@ + seq![] =~= out@);
        }
        i += 1;
    }
    out
}

/// The steps of each level below `to`, where there are any.
pub open spec fn fix_order(steps: Seq<StepView>, to: nat) -> Seq<char>
    decreases to,
{
    if to == 0 {
        seq![]
    } else {
        let k = (to - 1) as nat;
        fix_order(steps, k) + (if count_priority(steps, level_name(k)) > 0 {
            "  "@ + level_name(k) + " — "@ + level_advice(k) + "\n"@ + level_lines(
                steps,
                level_name(k),
                steps.len(),
            ) + "\n"@
        } else {
            seq![]
        })
    }
}

fn write_fix_order(steps: &Vec<RemediationStep>) -> (r: String)
    ensures
        r@ == fix_order(step_views(steps@), LEVELS as nat),
{
    let ghost all = step_views(steps@);
    let mut out = String::new();
    assert(out@ =~= seq![]);
    assert(all.len() == steps@.len());
    let mut k: usize = 0;
    while k < LEVELS
        invariant
            k <= LEVELS,
            all == step_views(steps@),
            all.len() == steps@.len(),
            out@ == fix_order(all, k as nat),
        decreases LEVELS - k,
    {
        let (name, advice) = level_words(k);
        if count_steps(steps, name) > 0 {
            let part = "  ".to_owned().concat(name).concat(" — ").concat(advice).concat(
                "\n",
            ).concat(write_level(steps, name).as_str()).concat("\n");
            out = out.concat(part.as_str());
        } else {
            assert(out@ + seq![] =~= out@);
        }
        k += 1;
    }
    out
}

/// The head of the plan's table.
pub open spec fn table_head() -> Seq<char> {
    row("#"@, "Pri"@, "Rule"@, "Sev"@, "Effort"@, "Issues"@, "Score"@) + row(
        repeat('─', 3),
        repeat('─', 4),
        repeat('─', 30),
        repeat('─', 4),
        repeat('─', 9),
        repeat('─', 6),
        repeat('─', 5),
    )
}

fn write_table_head() -> (r: String)
    ensures
        r@ == table_head(),
{
    let names = make_row("#", "Pri", "Rule", "Sev", "Effort", "Issues", "Score");
    let bars = make_row(
        repeated('─', 3).as_str(),
        repeated('─', 4).as_str(),
        repeated('─', 30).as_str(),
        repeated('─', 4).as_str(),
        repeated('─', 9).as_str(),
        repeated('─', 6).as_str(),
        repeated('─', 5).as_str(),
    );
    names.concat(bars.as_str())
}

/// How many steps are shown.
pub open spec fn shown_steps(steps: nat, top: nat) -> nat {
    if steps < top {
        steps
    } else {
        top
    }
}

/// A plan as text; the table shows at most `top` steps.
pub open spec fn plan_text(steps: Seq<StepView>, top: nat) -> Seq<char> {
    heading("REMEDIATION PLAN — Prioritized Fix Order"@) + (if steps.len() == 0 {
        "  All clean — nothing to fix.\n"@
    } else {
        "  Priority breakdown:\n"@ + breakdown(steps, LEVELS as nat) + "\n"@ + table_head()
            + table(steps, shown_steps(steps.len(), top)) + (if steps.len() > top {
            "  ... and "@ + dec((steps.len() - top) as nat)
                + " more rules (use --plan to see all)\n"@
        } else {
            seq![]
        }) + "\n"@ + heading("RECOMMENDED FIX ORDER"@) + fix_order(steps, LEVELS as nat)
    })
}

/// The plan for findings as text; the table shows at most `top` steps.
pub fn plan_report(issues: &Vec<&Issue>, top: usize, workspace_root: Option<&str>) -> (r: String)
    ensures
        r@ == plan_text(plan(ref_views(issues@), opt_str(workspace_root)), top as nat),
{
    let steps = build_remediation_plan(issues, workspace_root);
    let ghost all = step_views(steps@);
    assert(all.len() == steps@.len());
    let title = make_heading("REMEDIATION PLAN — Prioritized Fix Order");
    let count: usize = steps.len();
    if count == 0 {
        return title.concat("  All clean — nothing to fix.\n");
    }
    let shown: usize = if count < top {
        count
    } else {
        top
    };
    let more = if count > top {
        "  ... and ".to_owned().concat(count_text(count - top).as_str()).concat(
            " more rules (use --plan to see all)\n",
        )
    } else {
        String::new()
    };
    assert(count <= top ==> more@ =~= seq![]);
    let rest = "  Priority breakdown:\n".to_owned().concat(
        write_breakdown(&steps).as_str(),
    ).concat("\n").concat(write_table_head().as_str()).concat(
        write_table(&steps, shown).as_str(),
    ).concat(more.as_str()).concat("\n").concat(
        make_heading("RECOMMENDED FIX ORDER").as_str(),
    ).concat(write_fix_order(&steps).as_str());
    title.concat(rest.as_str())
}

// ── What a step says ────────────────────────────────────────────────────────

/// Whether a finding of a rule has a severity.
pub open spec fn has_severity(issues: Seq<IssueView>, rule: Seq<char>, severity: Severity) -> bool {
    exists|i: int|
        0 <= i < issues.len() && (#[trigger] issues[i]).rule == rule && issues[i].severity
            == severity
}

/// Findings of a rule.
pub open spec fn is_of(rule: Seq<char>) -> spec_fn(IssueView) -> bool {
    |i: IssueView| i.rule == rule
}

proof fn lemma_of_rule(issues: Seq<IssueView>, rule: Seq<char>)
    ensures
        of_rule(issues, rule) == issues.filter(is_of(rule)),
        forall|x: IssueView| #[trigger]
            of_rule(issues, rule).contains(x) <==> issues.contains(x) && x.rule == rule,
    decreases issues.len(),
{
    reveal(Seq::filter);
    let f = if_rule(rule);
    if issues.len() == 0 {
        assert(issues.flat_map(f) =~= seq![]);
    } else {
        let rest = issues.drop_last();
        lemma_of_rule(rest, rule);
        rest.lemma_flat_map_push(f, issues.last());
        assert(issues =~= rest.push(issues.last()));
        assert(of_rule(issues, rule) =~= issues.filter(is_of(rule)));
    }
    assert forall|x: IssueView| #[trigger] of_rule(issues, rule).contains(x) <==> issues.contains(x)
        && x.rule == rule by {
        lemma_flat_map_contains(issues, f, x);
        if of_rule(issues, rule).contains(x) {
            let i = choose|i: int| 0 <= i < issues.len() && f(#[trigger] issues[i]).contains(x);
            assert(issues[i] == x);
        }
        if issues.contains(x) && x.rule == rule {
            let i = issues.index_of(x);
            assert(f(issues[i])[0] == x);
            assert(f(issues[i]).contains(x));
        }
    }
}

/// The step for a rule counts the findings of the rule, names the files that they are in, is as
/// severe as the worst of them, and tells the message of the first. Its score is the weight of
/// its severity times the effort of the rule.
pub proof fn law_steps_sum_up_their_rule(
    issues: Seq<IssueView>,
    root: Option<Seq<char>>,
    rule: Seq<char>,
)
    ensures
        ({
            let step = step_for(issues, root)(rule);
            let own = issues.filter(is_of(rule));
            &&& step.rule == rule
            &&& step.count == own.len()
            &&& own.len() > 0 ==> step.description == own[0].message
            &&& step.severity == Severity::Error <==> has_severity(issues, rule, Severity::Error)
            &&& step.severity == Severity::Warning <==> has_severity(
                issues,
                rule,
                Severity::Warning,
            ) && !has_severity(issues, rule, Severity::Error)
            &&& forall|file: Seq<char>| #[trigger]
                step.files.contains(file) <==> exists|i: int|
                    0 <= i < issues.len() && (#[trigger] issues[i]).rule == rule && shown_path(
                        issues[i].file,
                        root,
                    ) == file
            &&& step.files.no_duplicates()
            &&& step.severity == Severity::Error ==> step.score == 60 * effort(rule)
            &&& step.severity == Severity::Warning ==> step.score == 15 * effort(rule)
            &&& step.severity == Severity::Info ==> step.score == 3 * effort(rule)
            &&& step.priority == if step.score >= 240 {
                "P0"@
            } else if step.score >= 140 {
                "P1"@
            } else if step.score >= 60 {
                "P2"@
            } else {
                "P3"@
            }
            &&& step.effort == if effort(rule) >= 8 {
                "major"@
            } else if effort(rule) >= 5 {
                "moderate"@
            } else if effort(rule) >= 2 {
                "minor"@
            } else {
                "trivial"@
            }
        }),
{
    let step = step_for(issues, root)(rule);
    let own = of_rule(issues, rule);
    lemma_of_rule(issues, rule);
    law_counted_severities_occur(own, Severity::Error);
    law_counted_severities_occur(own, Severity::Warning);
    lemma_severity(issues, rule, Severity::Error);
    lemma_severity(issues, rule, Severity::Warning);
    let f = |i: IssueView| shown_path(i.file, root);
    let paths = own.map_values(f);
    lemma_distinct_texts(paths);
    crate::order::lemma_sorted_texts(distinct_texts(paths));
    assert(step.files == sorted_texts(distinct_texts(paths)));
    distinct_texts(paths).lemma_multiset_has_no_duplicates();
    step.files.lemma_multiset_has_no_duplicates_conv();
    broadcast use vstd::seq_lib::to_multiset_contains;
    assert forall|file: Seq<char>| #[trigger] step.files.contains(file) <==> exists|i: int|
        0 <= i < issues.len() && (#[trigger] issues[i]).rule == rule && shown_path(
            issues[i].file,
            root,
        ) == file by {
        assert(step.files.contains(file) <==> step.files.to_multiset().count(file) > 0);
        assert(distinct_texts(paths).contains(file) <==> distinct_texts(paths).to_multiset().count(
            file,
        ) > 0);
        assert(step.files.contains(file) <==> paths.contains(file));
        if paths.contains(file) {
            let k = paths.index_of(file);
            assert(of_rule(issues, rule).contains(own[k]));
            let i = issues.index_of(own[k]);
            assert(issues[i].rule == rule);
        }
        if exists|i: int|
            0 <= i < issues.len() && (#[trigger] issues[i]).rule == rule && shown_path(
                issues[i].file,
                root,
            ) == file {
            let i = choose|i: int|
                0 <= i < issues.len() && (#[trigger] issues[i]).rule == rule && shown_path(
                    issues[i].file,
                    root,
                ) == file;
            assert(issues.contains(issues[i]));
            assert(of_rule(issues, rule).contains(issues[i]));
            let k = own.index_of(issues[i]);
            assert(paths[k] == file);
        }
    }
}

proof fn lemma_severity(issues: Seq<IssueView>, rule: Seq<char>, severity: Severity)
    ensures
        has_severity(issues, rule, severity) <==> exists|i: int|
            0 <= i < of_rule(issues, rule).len() && (#[trigger] of_rule(issues, rule)[i]).severity
                == severity,
{
    let own = of_rule(issues, rule);
    lemma_of_rule(issues, rule);
    if has_severity(issues, rule, severity) {
        let i = choose|i: int|
            0 <= i < issues.len() && (#[trigger] issues[i]).rule == rule && issues[i].severity
                == severity;
        assert(issues.contains(issues[i]));
        assert(of_rule(issues, rule).contains(issues[i]));
        let k = own.index_of(issues[i]);
        assert(of_rule(issues, rule)[k].severity == severity);
    }
    if exists|k: int| 0 <= k < own.len() && (#[trigger] own[k]).severity == severity {
        let k = choose|k: int| 0 <= k < own.len() && (#[trigger] own[k]).severity == severity;
        assert(of_rule(issues, rule).contains(own[k]));
        let i = issues.index_of(own[k]);
        assert(issues[i].rule == rule);
    }
}

/// What it takes to fix a rule: most of all for cycles and god classes, then for what crosses
/// layers, copies and complexity, length, nesting and reach, design, and least for what one line
/// mends; any other rule stands between the last two.
pub proof fn law_rules_have_their_effort(rule: Seq<char>)
    ensures
        effort(rule) == 10 <==> (rule == "import-cycle"@ || rule == "god-class"@),
        effort(rule) == 8 <==> (rule == "layer-violation"@ || rule == "transport-in-library"@ || rule == "god-module"@),
        effort(rule) == 6 <==> (rule == "sync-async-duplication"@ || rule == "duplicate-function-body"@ || rule == "high-complexity"@ || rule == "deep-inheritance"@),
        effort(rule) == 5 <==> (rule == "long-function"@ || rule == "potential-circular-import"@ || rule == "long-file"@),
        effort(rule) == 4 <==> (rule == "deep-nesting"@ || rule == "too-many-params"@ || rule == "scope-mutation"@),
        effort(rule) == 3 <==> (rule == "boolean-flag-params"@ || rule == "excessive-returns"@ || rule == "swallowed-exception"@ || rule == "global-mutable"@ || rule == "lazy-class"@ || rule == "orphan-interface"@),
        effort(rule) == 1 <==> (rule == "missing-param-type"@ || rule == "untyped-dict"@ || rule == "unused-import"@ || rule == "star-import"@ || rule == "mutable-default"@ || rule == "todo-marker"@ || rule == "dead-code"@ || rule == "magic-number"@ || rule == "missing-else"@),
        effort(rule) == 2 || seq![1nat, 3, 4, 5, 6, 8, 10].contains(effort(rule)),
{
    let efforts = seq![1nat, 3, 4, 5, 6, 8, 10];
    assert(efforts[0] == 1 && efforts[1] == 3 && efforts[2] == 4 && efforts[3] == 5);
    assert(efforts[4] == 6 && efforts[5] == 8 && efforts[6] == 10);
    reveal_strlit("import-cycle");
    assert("import-cycle"@.len() == 12);
    reveal_strlit("god-class");
    assert("god-class"@.len() == 9);
    reveal_strlit("layer-violation");
    assert("layer-violation"@.len() == 15);
    reveal_strlit("transport-in-library");
    assert("transport-in-library"@.len() == 20);
    reveal_strlit("god-module");
    assert("god-module"@.len() == 10);
    reveal_strlit("sync-async-duplication");
    assert("sync-async-duplication"@.len() == 22);
    reveal_strlit("duplicate-function-body");
    assert("duplicate-function-body"@.len() == 23);
    reveal_strlit("high-complexity");
    assert("high-complexity"@.len() == 15);
    reveal_strlit("deep-inheritance");
    assert("deep-inheritance"@.len() == 16);
    reveal_strlit("long-function");
    assert("long-function"@.len() == 13);
    reveal_strlit("potential-circular-import");
    assert("potential-circular-import"@.len() == 25);
    reveal_strlit("long-file");
    assert("long-file"@.len() == 9);
    reveal_strlit("deep-nesting");
    assert("deep-nesting"@.len() == 12);
    reveal_strlit("too-many-params");
    assert("too-many-params"@.len() == 15);
    reveal_strlit("scope-mutation");
    assert("scope-mutation"@.len() == 14);
    reveal_strlit("boolean-flag-params");
    assert("boolean-flag-params"@.len() == 19);
    reveal_strlit("excessive-returns");
    assert("excessive-returns"@.len() == 17);
    reveal_strlit("swallowed-exception");
    assert("swallowed-exception"@.len() == 19);
    reveal_strlit("global-mutable");
    assert("global-mutable"@.len() == 14);
    reveal_strlit("lazy-class");
    assert("lazy-class"@.len() == 10);
    reveal_strlit("orphan-interface");
    assert("orphan-interface"@.len() == 16);
    reveal_strlit("missing-param-type");
    assert("missing-param-type"@.len() == 18);
    reveal_strlit("untyped-dict");
    assert("untyped-dict"@.len() == 12);
    reveal_strlit("unused-import");
    assert("unused-import"@.len() == 13);
    reveal_strlit("star-import");
    assert("star-import"@.len() == 11);
    reveal_strlit("mutable-default");
    assert("mutable-default"@.len() == 15);
    reveal_strlit("todo-marker");
    assert("todo-marker"@.len() == 11);
    reveal_strlit("dead-code");
    assert("dead-code"@.len() == 9);
    reveal_strlit("magic-number");
    assert("magic-number"@.len() == 12);
    reveal_strlit("missing-else");
    assert("missing-else"@.len() == 12);
    assert("god-class"@[0] != "long-file"@[0]);
    assert("import-cycle"@[0] != "deep-nesting"@[0]);
    assert("import-cycle"@[0] != "untyped-dict"@[0]);
    assert("import-cycle"@[0] != "magic-number"@[0]);
    assert("import-cycle"@[0] != "missing-else"@[0]);
    assert("god-class"@[0] != "dead-code"@[0]);
    assert("layer-violation"@[0] != "high-complexity"@[0]);
    assert("layer-violation"@[0] != "too-many-params"@[0]);
    assert("god-module"@[0] != "lazy-class"@[0]);
    assert("layer-violation"@[0] != "mutable-default"@[0]);
    assert("high-complexity"@[0] != "too-many-params"@[0]);
    assert("deep-inheritance"@[0] != "orphan-interface"@[0]);
    assert("high-complexity"@[0] != "mutable-default"@[0]);
    assert("long-function"@[0] != "unused-import"@[0]);
    assert("long-file"@[0] != "dead-code"@[0]);
    assert("scope-mutation"@[0] != "global-mutable"@[0]);
    assert("deep-nesting"@[0] != "untyped-dict"@[0]);
    assert("deep-nesting"@[0] != "magic-number"@[0]);
    assert("deep-nesting"@[0] != "missing-else"@[0]);
    assert("too-many-params"@[0] != "mutable-default"@[0]);
}

} // verus!
