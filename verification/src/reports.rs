//! What the text reports tell: every finding that stays, every one that a marker suppresses, the
//! counts, and every step of a plan.

use crate::cli::{
    by_shown_path, ignored_line, ignored_lines, ignored_part, issue_line, issue_lines, report_text,
    summary,
};
use crate::models::{count_of, shown_path, IssueView, ResultView, Severity};
use crate::order::{lemma_sorted, sorted, total_preorder};
use crate::scoring::{
    breakdown, count_priority, fix_order, heading, icon, level_advice, level_lines, level_name,
    plan_text, preview, row, score_text, table, table_head, tenths, StepView, LEVELS,
};
use crate::text::{
    at_left, at_right, dec, lemma_text_le_total, lemma_text_le_transitive, occurs, occurs_at,
};
use vstd::prelude::*;
use vstd::string::*;

verus! {

proof fn lemma_occurs_between(before: Seq<char>, x: Seq<char>, after: Seq<char>)
    ensures
        occurs(x, before + x + after),
{
    let s = before + x + after;
    let i = before.len() as int;
    assert(s.subrange(i, i + x.len()) =~= x);
    assert(occurs_at(x, s, i));
}

proof fn lemma_occurs_within(x: Seq<char>, part: Seq<char>, before: Seq<char>, after: Seq<char>)
    requires
        occurs(x, part),
    ensures
        occurs(x, before + part + after),
{
    let k = choose|k: int| occurs_at(x, part, k);
    let s = before + part + after;
    let i = before.len() + k;
    assert(s.subrange(i, i + x.len()) =~= part.subrange(k, k + x.len()));
    assert(occurs_at(x, s, i));
}

// ── The report on findings ──────────────────────────────────────────────────

proof fn lemma_issue_lines(issues: Seq<IssueView>, root: Option<Seq<char>>, k: int)
    requires
        0 <= k < issues.len(),
    ensures
        occurs(issue_line(issues[k], root), issue_lines(issues, root)),
    decreases issues.len(),
{
    let rest = issue_lines(issues.drop_last(), root);
    let last = issue_line(issues.last(), root);
    if k == issues.len() - 1 {
        lemma_occurs_between(rest, last, seq![]);
        assert(rest + last + seq![] =~= issue_lines(issues, root));
    } else {
        lemma_issue_lines(issues.drop_last(), root, k);
        lemma_occurs_within(issue_line(issues[k], root), rest, seq![], last);
        assert(seq![] + rest + last =~= issue_lines(issues, root));
    }
}

proof fn lemma_ignored_lines(issues: Seq<IssueView>, root: Option<Seq<char>>, k: int)
    requires
        0 <= k < issues.len(),
    ensures
        occurs(ignored_line(issues[k], root), ignored_lines(issues, root)),
    decreases issues.len(),
{
    let rest = ignored_lines(issues.drop_last(), root);
    let last = ignored_line(issues.last(), root);
    if k == issues.len() - 1 {
        lemma_occurs_between(rest, last, seq![]);
        assert(rest + last + seq![] =~= ignored_lines(issues, root));
    } else {
        lemma_ignored_lines(issues.drop_last(), root, k);
        lemma_occurs_within(ignored_line(issues[k], root), rest, seq![], last);
        assert(seq![] + rest + last =~= ignored_lines(issues, root));
    }
}

/// A report has a line for each finding that stays: its path, its line, its rule and its message.
pub proof fn law_reports_tell_every_finding(
    filtered: Seq<IssueView>,
    total: ResultView,
    score: Seq<char>,
    grade: Seq<char>,
    root: Option<Seq<char>>,
    k: int,
)
    requires
        0 <= k < filtered.len(),
    ensures
        occurs(
            "  "@ + shown_path(filtered[k].file, root) + " L"@ + at_left(dec(filtered[k].line), 5)
                + " ["@ + filtered[k].rule + "] "@ + filtered[k].message + "\n"@,
            report_text(filtered, total, score, grade, root),
        ),
{
    lemma_issue_lines(filtered, root, k);
    let r = report_text(filtered, total, score, grade, root);
    let part = issue_lines(filtered, root);
    let before = r.take(r.len() - part.len());
    lemma_occurs_within(issue_line(filtered[k], root), part, before, seq![]);
    assert(before + part + seq![] =~= r);
}

proof fn lemma_paths_are_ordered(root: Option<Seq<char>>)
    ensures
        total_preorder(by_shown_path(root)),
{
    let le = by_shown_path(root);
    assert forall|a: IssueView, b: IssueView| #[trigger] le(a, b) || le(b, a) by {
        lemma_text_le_total(shown_path(a.file, root), shown_path(b.file, root));
    }
    assert forall|a: IssueView, b: IssueView, c: IssueView| #[trigger]
        le(a, b) && #[trigger] le(b, c) implies le(a, c) by {
        let x = shown_path(a.file, root);
        let y = shown_path(b.file, root);
        let z = shown_path(c.file, root);
        if x != y && y != z {
            lemma_text_le_transitive(x, y, z);
            if x == z {
                crate::text::lemma_text_le_antisymmetric(x, y);
            }
        }
    }
}

/// A report has a line for each finding that a marker suppresses: the sign of its severity, its
/// path and line, its rule, and the reason that was given.
pub proof fn law_reports_tell_every_ignored_finding(
    filtered: Seq<IssueView>,
    total: ResultView,
    score: Seq<char>,
    grade: Seq<char>,
    root: Option<Seq<char>>,
    x: IssueView,
)
    requires
        total.ignored.contains(x),
    ensures
        occurs(
            "  "@ + (match x.severity {
                Severity::Error => "✖"@,
                Severity::Warning => "⚠"@,
                Severity::Info => "ℹ"@,
            }) + " "@ + shown_path(x.file, root) + ":"@ + dec(x.line) + " ["@ + x.rule + "] "@ + (
            match x.reason {
                Some(reason) => reason,
                None => "no reason given"@,
            }) + "\n"@,
            report_text(filtered, total, score, grade, root),
        ),
{
    broadcast use vstd::seq_lib::to_multiset_contains;

    let le = by_shown_path(root);
    let all = sorted(total.ignored, le);
    lemma_paths_are_ordered(root);
    lemma_sorted(total.ignored, le);
    assert(total.ignored.to_multiset().count(x) > 0);
    assert(all.contains(x));
    let k = all.index_of(x);
    lemma_ignored_lines(all, root, k);
    let line = ignored_line(x, root);
    let lines = ignored_lines(all, root);
    let part = ignored_part(total.ignored, root);
    let head = heading("SPAGHETTI-IGNORED (inline spaghetti-ignore markers)"@);
    lemma_occurs_within(line, lines, head, "\n"@);
    assert(part =~= head + lines + "\n"@);
    let after = issue_lines(filtered, root);
    let before = heading("SPAGHETTI CODE DETECTION REPORT"@) + summary(filtered, total)
        + "\n  Overall score: "@ + score + " ("@ + grade + ")\n\n"@;
    lemma_occurs_within(line, part, before, after);
    assert(before + part + after =~= report_text(filtered, total, score, grade, root));
}

/// A report tells the counts of the scan and of the findings that stay, severity by severity; it
/// tells how many findings markers suppress where there are any.
pub proof fn law_reports_tell_the_counts(filtered: Seq<IssueView>, total: ResultView)
    ensures
        ({
            let s = summary(filtered, total);
            &&& occurs("  Files scanned:     "@ + dec(total.files_scanned), s)
            &&& occurs("\n  Lines scanned:     "@ + dec(total.total_lines), s)
            &&& occurs("\n  Functions scanned: "@ + dec(total.functions_scanned), s)
            &&& occurs("\n  Total issues:      "@ + dec(filtered.len()), s)
            &&& occurs("\n    Errors:          "@ + dec(count_of(filtered, Severity::Error)), s)
            &&& occurs("\n    Warnings:        "@ + dec(count_of(filtered, Severity::Warning)), s)
            &&& occurs("\n    Info:            "@ + dec(count_of(filtered, Severity::Info)), s)
            &&& total.suppressed > 0 ==> occurs(
                "  Suppressed:        "@ + dec(total.suppressed)
                    + " (inline spaghetti-ignore markers)\n"@,
                s,
            )
        }),
{
    let none: Seq<Seq<char>> = seq![];
    let empty: Seq<char> = seq![];
    let t1 = "  Files scanned:     "@ + dec(total.files_scanned);
    assert(empty + "  Files scanned:     "@ + dec(total.files_scanned) =~= t1);
    lemma_told(none, empty, "  Files scanned:     "@, dec(total.files_scanned));
    let x1 = none.push(t1);
    let t2 = t1 + "\n  Lines scanned:     "@ + dec(total.total_lines);
    lemma_told(x1, t1, "\n  Lines scanned:     "@, dec(total.total_lines));
    let x2 = x1.push("\n  Lines scanned:     "@ + dec(total.total_lines));
    let t3 = t2 + "\n  Functions scanned: "@ + dec(total.functions_scanned);
    lemma_told(x2, t2, "\n  Functions scanned: "@, dec(total.functions_scanned));
    let x3 = x2.push("\n  Functions scanned: "@ + dec(total.functions_scanned));
    let t4 = t3 + "\n  Total issues:      "@ + dec(filtered.len());
    lemma_told(x3, t3, "\n  Total issues:      "@, dec(filtered.len()));
    let x4 = x3.push("\n  Total issues:      "@ + dec(filtered.len()));
    let errors = dec(count_of(filtered, Severity::Error));
    let t5 = t4 + "\n    Errors:          "@ + errors;
    lemma_told(x4, t4, "\n    Errors:          "@, errors);
    let x5 = x4.push("\n    Errors:          "@ + errors);
    let warnings = dec(count_of(filtered, Severity::Warning));
    let t6 = t5 + "\n    Warnings:        "@ + warnings;
    lemma_told(x5, t5, "\n    Warnings:        "@, warnings);
    let x6 = x5.push("\n    Warnings:        "@ + warnings);
    let infos = dec(count_of(filtered, Severity::Info));
    let t7 = t6 + "\n    Info:            "@ + infos;
    lemma_told(x6, t6, "\n    Info:            "@, infos);
    let x7 = x6.push("\n    Info:            "@ + infos);
    let end = if total.suppressed > 0 {
        "  Suppressed:        "@ + dec(total.suppressed)
            + " (inline spaghetti-ignore markers)\n"@
    } else {
        empty
    };
    lemma_told(x7, t7, "\n"@, end);
    let x8 = x7.push("\n"@ + end);
    let s = t7 + "\n"@ + end;
    assert(s == summary(filtered, total));
    assert(all_told(x8, s));
    assert(x8[0] == t1);
    assert(x8[1] == "\n  Lines scanned:     "@ + dec(total.total_lines));
    assert(x8[2] == "\n  Functions scanned: "@ + dec(total.functions_scanned));
    assert(x8[3] == "\n  Total issues:      "@ + dec(filtered.len()));
    assert(x8[4] == "\n    Errors:          "@ + errors);
    assert(x8[5] == "\n    Warnings:        "@ + warnings);
    assert(x8[6] == "\n    Info:            "@ + infos);
    lemma_occurs_between(t7 + "\n"@, end, empty);
    assert(t7 + "\n"@ + end + empty =~= s);
}

/// Whether all of the texts stand in a text.
spec fn all_told(xs: Seq<Seq<char>>, t: Seq<char>) -> bool {
    forall|i: int| 0 <= i < xs.len() ==> occurs(#[trigger] xs[i], t)
}

proof fn lemma_told(xs: Seq<Seq<char>>, t: Seq<char>, p: Seq<char>, d: Seq<char>)
    requires
        all_told(xs, t),
    ensures
        all_told(xs.push(p + d), t + p + d),
{
    let more = xs.push(p + d);
    assert forall|i: int| 0 <= i < more.len() implies occurs(#[trigger] more[i], t + p + d) by {
        if i < xs.len() {
            lemma_occurs_within(xs[i], t, seq![], p + d);
            assert(seq![] + t + (p + d) =~= t + p + d);
        } else {
            lemma_occurs_between(t, p + d, seq![]);
            assert(t + (p + d) + seq![] =~= t + p + d);
        }
    }
}

// ── The report on a plan ────────────────────────────────────────────────────

/// A score is shown with one decimal, to the nearest one. Where two are as near the even one is
/// taken, but for three twentieths, of which the nearest binary fraction lies below the half.
pub proof fn law_scores_are_rounded(score: nat)
    ensures
        score_text(score) == dec(tenths(score) / 10) + "."@ + dec(tenths(score) % 10),
        score % 2 == 0 ==> 2 * tenths(score) == score,
        score % 2 == 1 ==> 2 * tenths(score) == score + 1 || 2 * tenths(score) == score - 1,
        score % 2 == 1 && score != 3 ==> tenths(score) % 2 == 0,
        tenths(3) == 1,
{
}

/// The line of a step in the table of a plan: its number, its priority, its rule, the sign of its
/// severity, its effort, how many findings it mends and its score, and below it the first of its
/// files with the number of the others.
pub open spec fn step_line(s: StepView, number: nat) -> Seq<char> {
    "  "@ + at_left(dec(number), 3) + " "@ + at_left(s.priority, 4) + " "@ + at_left(s.rule, 30)
        + " "@ + at_left(
        match s.severity {
            Severity::Error => "✖"@,
            Severity::Warning => "⚠"@,
            Severity::Info => "ℹ"@,
        },
        4,
    ) + " "@ + at_left(s.effort, 9) + " "@ + at_right(dec(s.count), 6) + "  "@ + at_right(
        score_text(s.score),
        5,
    ) + "\n"@ + "      └─ "@ + (if s.files.len() > 1 {
        s.files[0] + " +"@ + dec((s.files.len() - 1) as nat)
    } else if s.files.len() == 1 {
        s.files[0]
    } else {
        "?"@
    }) + "\n"@
}

proof fn lemma_table(steps: Seq<StepView>, n: nat, k: int)
    requires
        0 <= k < n <= steps.len(),
    ensures
        occurs(step_line(steps[k], (k + 1) as nat), table(steps, n)),
    decreases n,
{
    let less = (n - 1) as nat;
    let s = steps[n - 1];
    let rest = table(steps, less);
    let head = row(
        dec(n),
        s.priority,
        s.rule,
        icon(s.severity),
        s.effort,
        dec(s.count),
        score_text(s.score),
    );
    let last = head + "      └─ "@ + preview(s.files) + "\n"@;
    assert(table(steps, n) =~= rest + last);
    assert(preview(s.files) =~= if s.files.len() > 1 {
        s.files[0] + " +"@ + dec((s.files.len() - 1) as nat)
    } else if s.files.len() == 1 {
        s.files[0]
    } else {
        "?"@
    });
    assert(last =~= step_line(s, n));
    if k == n - 1 {
        lemma_occurs_between(rest, last, seq![]);
        assert(rest + last + seq![] =~= table(steps, n));
    } else {
        lemma_table(steps, less, k);
        lemma_occurs_within(step_line(steps[k], (k + 1) as nat), rest, seq![], last);
        assert(seq![] + rest + last =~= table(steps, n));
    }
}

/// The table of a plan has a line for each of the steps that are shown; where not all are, it
/// tells how many more there are. A plan without steps says so.
pub proof fn law_plans_tell_each_step(steps: Seq<StepView>, top: nat, k: int)
    ensures
        0 <= k < steps.len() && k < top ==> occurs(
            step_line(steps[k], (k + 1) as nat),
            plan_text(steps, top),
        ),
        steps.len() > top ==> occurs(
            "  ... and "@ + dec((steps.len() - top) as nat)
                + " more rules (use --plan to see all)\n"@,
            plan_text(steps, top),
        ),
        steps.len() == 0 ==> occurs("  All clean — nothing to fix.\n"@, plan_text(steps, top)),
{
    let text = plan_text(steps, top);
    let title = heading("REMEDIATION PLAN — Prioritized Fix Order"@);
    if steps.len() == 0 {
        lemma_occurs_between(title, "  All clean — nothing to fix.\n"@, seq![]);
        assert(title + "  All clean — nothing to fix.\n"@ + seq![] =~= text);
    } else {
        let n = if steps.len() < top {
            steps.len()
        } else {
            top
        };
        let before = "  Priority breakdown:\n"@ + breakdown(steps, LEVELS as nat) + "\n"@
            + table_head();
        let rows = table(steps, n);
        let more = if steps.len() > top {
            "  ... and "@ + dec((steps.len() - top) as nat)
                + " more rules (use --plan to see all)\n"@
        } else {
            seq![]
        };
        let after = "\n"@ + heading("RECOMMENDED FIX ORDER"@) + fix_order(steps, LEVELS as nat);
        assert(text =~= (title + before) + rows + (more + after));
        assert(text =~= (title + before + rows) + more + after);
        if 0 <= k < steps.len() && k < top {
            lemma_table(steps, n, k);
            lemma_occurs_within(
                step_line(steps[k], (k + 1) as nat),
                rows,
                title + before,
                more + after,
            );
        }
        lemma_occurs_between(title + before + rows, more, after);
    }
}

/// What a plan tells of a step below the heading of its priority: its rule, how many findings it
/// mends, and its effort.
pub open spec fn step_item(s: StepView) -> Seq<char> {
    if s.count == 1 {
        "    • "@ + s.rule + " ("@ + dec(s.count) + " issue"@ + ", "@ + s.effort + " effort)\n"@
    } else {
        "    • "@ + s.rule + " ("@ + dec(s.count) + " issue"@ + "s"@ + ", "@ + s.effort
            + " effort)\n"@
    }
}

proof fn lemma_level_lines(steps: Seq<StepView>, n: nat, k: int)
    requires
        0 <= k < n <= steps.len(),
    ensures
        occurs(step_item(steps[k]), level_lines(steps, steps[k].priority, n)),
    decreases n,
{
    let priority = steps[k].priority;
    let rest = level_lines(steps, priority, (n - 1) as nat);
    let all = level_lines(steps, priority, n);
    let last = all.skip(rest.len() as int);
    assert(all =~= rest + last);
    if k == n - 1 {
        assert(last =~= step_item(steps[k]));
        lemma_occurs_between(rest, last, seq![]);
        assert(rest + last + seq![] =~= all);
    } else {
        lemma_level_lines(steps, (n - 1) as nat, k);
        lemma_occurs_within(step_item(steps[k]), rest, seq![], last);
        assert(seq![] + rest + last =~= all);
    }
}

proof fn lemma_priority_is_counted(steps: Seq<StepView>, k: int)
    requires
        0 <= k < steps.len(),
    ensures
        count_priority(steps, steps[k].priority) > 0,
    decreases steps.len(),
{
    if k < steps.len() - 1 {
        lemma_priority_is_counted(steps.drop_last(), k);
    }
}

proof fn lemma_fix_order(steps: Seq<StepView>, to: nat, level: nat, k: int)
    requires
        0 <= k < steps.len(),
        level < to,
        steps[k].priority == level_name(level),
    ensures
        occurs(step_item(steps[k]), fix_order(steps, to)),
    decreases to,
{
    let less = (to - 1) as nat;
    let rest = fix_order(steps, less);
    let all = fix_order(steps, to);
    let last = all.skip(rest.len() as int);
    assert(all =~= rest + last);
    if level == less {
        lemma_priority_is_counted(steps, k);
        lemma_level_lines(steps, steps.len(), k);
        let head = "  "@ + level_name(less) + " — "@ + level_advice(less) + "\n"@;
        let lines = level_lines(steps, level_name(less), steps.len());
        assert(last =~= head + lines + "\n"@);
        lemma_occurs_within(step_item(steps[k]), lines, head, "\n"@);
        lemma_occurs_within(step_item(steps[k]), last, rest, seq![]);
        assert(rest + last + seq![] =~= all);
    } else {
        lemma_fix_order(steps, less, level, k);
        lemma_occurs_within(step_item(steps[k]), rest, seq![], last);
        assert(seq![] + rest + last =~= all);
    }
}

/// The fix order of a plan has an item for each step, whether the table shows it or not.
pub proof fn law_fix_orders_tell_each_step(
    steps: Seq<StepView>,
    top: nat,
    level: nat,
    k: int,
)
    requires
        0 <= k < steps.len(),
        level < 4,
        steps[k].priority == level_name(level),
    ensures
        occurs(step_item(steps[k]), plan_text(steps, top)),
{
    let text = plan_text(steps, top);
    let part = fix_order(steps, LEVELS as nat);
    lemma_fix_order(steps, LEVELS as nat, level, k);
    let before = text.take(text.len() - part.len());
    lemma_occurs_within(step_item(steps[k]), part, before, seq![]);
    assert(before + part + seq![] =~= text);
}

} // verus!
