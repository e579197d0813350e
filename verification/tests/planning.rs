//! Remediation plans.

use spaghetti::models::{Issue, Severity};
use spaghetti::scoring::{
    build_remediation_plan, compute_priority_score, effort_label, fix_effort, plan_report,
    priority_label, severity_weight,
};

fn issue(file: &str, severity: Severity, rule: &'static str, message: &str) -> Issue {
    Issue {
        file: file.to_string(),
        line: 1,
        severity,
        rule,
        message: message.to_string(),
        package: "p".to_string(),
        reason: None,
    }
}

#[test]
fn scores_are_weight_times_effort() {
    // In twentieths.
    let score = |severity, rule| compute_priority_score(&issue("f", severity, rule, ""));
    assert_eq!(score(Severity::Error, "import-cycle"), 600);
    assert_eq!(score(Severity::Warning, "long-function"), 75);
    assert_eq!(score(Severity::Info, "magic-number"), 3);
    assert_eq!(score(Severity::Warning, "some-new-rule"), 30);
    assert_eq!(severity_weight(Severity::Error), 60);
    assert_eq!(fix_effort("orphan-interface"), 3);
}

#[test]
fn efforts_have_words() {
    assert_eq!(effort_label(10), "major");
    assert_eq!(effort_label(8), "major");
    assert_eq!(effort_label(6), "moderate");
    assert_eq!(effort_label(5), "moderate");
    assert_eq!(effort_label(4), "minor");
    assert_eq!(effort_label(2), "minor");
    assert_eq!(effort_label(1), "trivial");
}

#[test]
fn levels_begin_at_their_scores() {
    assert_eq!(priority_label(240), ("P0", "CRITICAL — fix immediately"));
    assert_eq!(priority_label(239).0, "P1");
    assert_eq!(priority_label(140), ("P1", "HIGH — fix this sprint"));
    assert_eq!(priority_label(139).0, "P2");
    assert_eq!(priority_label(60), ("P2", "MEDIUM — plan for next cycle"));
    assert_eq!(priority_label(59), ("P3", "LOW — track in backlog"));
}

fn findings() -> Vec<Issue> {
    vec![
        issue("/w/b.py", Severity::Info, "magic-number", "first number"),
        issue("/w/a.py", Severity::Warning, "high-complexity", "complex"),
        issue("/w/a.py", Severity::Info, "magic-number", "second number"),
        issue("/w/c.py", Severity::Error, "high-complexity", "too complex"),
        issue("/w/b.py", Severity::Info, "missing-else", "else"),
        issue("/w/b.py", Severity::Info, "magic-number", "third number"),
        issue("/w/a.py", Severity::Warning, "long-function", "long"),
    ]
}

#[test]
fn plans_have_one_step_per_rule() {
    let all = findings();
    let refs: Vec<&Issue> = all.iter().collect();
    let steps = build_remediation_plan(&refs, Some("/w"));
    let shown: Vec<(&str, &str, usize, u32)> =
        steps.iter().map(|s| (s.priority, s.rule, s.count, s.score)).collect();
    assert_eq!(
        shown,
        [
            ("P0", "high-complexity", 2, 360),
            ("P2", "long-function", 1, 75),
            ("P3", "magic-number", 3, 3),
            ("P3", "missing-else", 1, 3),
        ]
    );
    assert_eq!(steps[0].severity, Severity::Error);
    assert_eq!(steps[0].description, "complex");
    assert_eq!(steps[0].effort, "moderate");
    assert_eq!(steps[0].files, ["a.py", "c.py"]);
    assert_eq!(steps[2].files, ["a.py", "b.py"]);
    assert_eq!(steps[2].description, "first number");
}

#[test]
fn an_empty_plan_says_so() {
    let bar = "=".repeat(72);
    assert_eq!(
        plan_report(&vec![], 5, None),
        format!(
            "{bar}\n  REMEDIATION PLAN — Prioritized Fix Order\n{bar}\n\n  All clean — nothing to fix.\n"
        )
    );
}

#[test]
fn plans_are_rendered_as_a_table() {
    let all = findings();
    let refs: Vec<&Issue> = all.iter().collect();
    let bar = "=".repeat(72);
    let expected = format!(
        "{bar}
  REMEDIATION PLAN — Prioritized Fix Order
{bar}

  Priority breakdown:
    P0: 1 rule(s) — CRITICAL — fix immediately
    P2: 1 rule(s) — MEDIUM — plan for next cycle
    P3: 2 rule(s) — LOW — track in backlog

  #   Pri  Rule                           Sev  Effort    Issues  Score
  ─── ──── ────────────────────────────── ──── ───────── ──────  ─────
  1   P0   high-complexity                ✖    moderate       2   18.0
      └─ a.py +1
  2   P2   long-function                  ⚠    moderate       1    3.8
      └─ a.py
  3   P3   magic-number                   ℹ    trivial        3    0.1
      └─ a.py +1
  ... and 1 more rules (use --plan to see all)

{bar}
  RECOMMENDED FIX ORDER
{bar}

  P0 — CRITICAL — fix immediately
    • high-complexity (2 issues, moderate effort)

  P2 — MEDIUM — plan for next cycle
    • long-function (1 issue, moderate effort)

  P3 — LOW — track in backlog
    • magic-number (3 issues, trivial effort)
    • missing-else (1 issue, trivial effort)

"
    );
    assert_eq!(plan_report(&refs, 3, Some("/w")), expected);
}

#[test]
fn scores_are_shown_with_one_decimal() {
    let score = |severity, rule: &'static str| {
        let one = issue("f", severity, rule, "");
        let report = plan_report(&vec![&one], 1, None);
        let line = report.lines().find(|l| l.starts_with("  1 ")).unwrap().to_string();
        line.split_whitespace().last().unwrap().to_string()
    };
    // 0.15, 0.45, 0.75, 2.25 and 3.75.
    assert_eq!(score(Severity::Info, "dead-code"), "0.1");
    assert_eq!(score(Severity::Info, "lazy-class"), "0.4");
    assert_eq!(score(Severity::Info, "long-file"), "0.8");
    assert_eq!(score(Severity::Warning, "lazy-class"), "2.2");
    assert_eq!(score(Severity::Warning, "long-file"), "3.8");
    assert_eq!(score(Severity::Info, "bare-except"), "0.3");
    assert_eq!(score(Severity::Error, "god-class"), "30.0");
}
