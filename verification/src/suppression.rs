//! Inline `# spaghetti-ignore` markers.

use crate::config::SUPPRESS_MARKER_RE;
use crate::models::{opt_text, Issue, IssueView};
use crate::order::lemma_flat_map_contains;
use crate::patterns::{captured, captures, compile, group_texts};
use crate::text::{
    add_text, contains_text, distinct_texts, lemma_distinct_texts, split, split_on, texts, trim,
    trimmed, with_text,
};
use vstd::prelude::*;
use vstd::string::*;

verus! {

/// A parsed `# spaghetti-ignore[rule1,rule2]: reason` marker. Without rules it
/// covers all of them.
#[derive(Debug, Clone)]
pub struct Suppression {
    /// The rules, each once.
    pub rules: Vec<String>,
    pub reason: Option<String>,
}

/// What a marker says.
pub struct SuppressionView {
    pub rules: Seq<Seq<char>>,
    pub reason: Option<Seq<char>>,
}

impl View for Suppression {
    type V = SuppressionView;

    open spec fn view(&self) -> SuppressionView {
        SuppressionView { rules: texts(self.rules@), reason: opt_text(self.reason) }
    }
}

/// The rule that a piece of a list names, if it names one.
pub open spec fn rule_in() -> spec_fn(Seq<char>) -> Seq<Seq<char>> {
    |piece: Seq<char>|
        if trim(piece).len() == 0 {
            seq![]
        } else {
            seq![trim(piece)]
        }
}

/// The rules that a comma-separated list names, each once.
pub open spec fn listed_rules(list: Option<Seq<char>>) -> Seq<Seq<char>> {
    match list {
        Some(t) => distinct_texts(split(t, ',').flat_map(rule_in())),
        None => seq![],
    }
}

/// The reason that a text gives, if it gives one.
pub open spec fn given_reason(text: Option<Seq<char>>) -> Option<Seq<char>> {
    match text {
        Some(t) => if trim(t).len() == 0 {
            None
        } else {
            Some(trim(t))
        },
        None => None,
    }
}

/// The text that group `k` captured, if it did.
pub open spec fn group(groups: Seq<Option<Seq<char>>>, k: int) -> Option<Seq<char>> {
    if k < groups.len() {
        groups[k]
    } else {
        None
    }
}

/// What the groups of a matched marker say.
pub open spec fn marker_of(groups: Seq<Option<Seq<char>>>) -> SuppressionView {
    SuppressionView { rules: listed_rules(group(groups, 1)), reason: given_reason(group(groups, 2)) }
}

/// The marker on a line.
pub open spec fn marker_on(line: Seq<char>) -> Option<SuppressionView> {
    match captured(SUPPRESS_MARKER_RE@, line) {
        Some(groups) => Some(marker_of(groups)),
        None => None,
    }
}

/// The marker on the line at place `k`, if there is such a line.
pub open spec fn marker_at(lines: Seq<Seq<char>>, k: int) -> Option<SuppressionView> {
    if 0 <= k < lines.len() {
        marker_on(lines[k])
    } else {
        None
    }
}

/// The marker in effect for a line, counted from 1: the one on it, else the one on
/// the line above.
pub open spec fn in_effect(lines: Seq<Seq<char>>, line_no: nat) -> Option<SuppressionView> {
    match marker_at(lines, line_no - 1) {
        Some(m) => Some(m),
        None => marker_at(lines, line_no - 2),
    }
}

/// Whether a marker covers a rule.
pub open spec fn covers(m: SuppressionView, rule: Seq<char>) -> bool {
    m.rules.len() == 0 || m.rules.contains(rule)
}

/// The marker that suppresses an issue.
pub open spec fn suppressing(issue: IssueView, lines: Seq<Seq<char>>) -> Option<SuppressionView> {
    match in_effect(lines, issue.line) {
        Some(m) => if covers(m, issue.rule) {
            Some(m)
        } else {
            None
        },
        None => None,
    }
}

// ── Reading markers ─────────────────────────────────────────────────────────

proof fn lemma_distinct_append(s: Seq<Seq<char>>, x: Seq<char>)
    ensures
        distinct_texts(s + seq![x]) == with_text(distinct_texts(s), x),
{
    assert((s + seq![x]).drop_last() =~= s);
}

fn parse_rules(list: Option<&str>) -> (r: Vec<String>)
    ensures
        texts(r@) == listed_rules(crate::models::opt_str(list)),
{
    let mut out: Vec<String> = Vec::new();
    let text = match list {
        Some(t) => t,
        None => {
            assert(texts(out@) =~= seq![]);
            return out;
        },
    };
    let pieces = split_on(text, ',');
    let ghost all = split(text@, ',');
    let ghost f = rule_in();
    let mut i: usize = 0;
    assert(all.take(0).flat_map(f) =~= seq![]);
    assert(texts(out@) =~= distinct_texts(all.take(0).flat_map(f)));
    while i < pieces.len()
        invariant
            i <= pieces@.len(),
            all == texts(pieces@),
            f == rule_in(),
            texts(out@) == distinct_texts(all.take(i as int).flat_map(f)),
        decreases pieces@.len() - i,
    {
        let ghost so_far = all.take(i as int).flat_map(f);
        proof {
            all.lemma_flat_map_take_append(f, i as int);
            assert(all[i as int] == pieces@[i as int]@);
            assert(so_far + seq![] =~= so_far);
        }
        let rule = trimmed(pieces[i].as_str());
        if rule.unicode_len() > 0 {
            proof {
                lemma_distinct_append(so_far, rule@);
            }
            add_text(&mut out, rule.as_str());
        }
        i += 1;
    }
    assert(all.take(i as int) =~= all);
    out
}

fn parse_reason(text: Option<&str>) -> (r: Option<String>)
    ensures
        opt_text(r) == given_reason(crate::models::opt_str(text)),
{
    match text {
        Some(t) => {
            let reason = trimmed(t);
            if reason.unicode_len() > 0 {
                Some(reason)
            } else {
                None
            }
        },
        None => None,
    }
}

fn group_text(groups: &Vec<Option<String>>, k: usize) -> (r: Option<&str>)
    ensures
        crate::models::opt_str(r) == group(group_texts(groups@), k as int),
{
    assert(group_texts(groups@).len() == groups@.len());
    if k < groups.len() {
        assert(group_texts(groups@)[k as int] == match groups@[k as int] {
            Some(t) => Some(t@),
            None => None::<Seq<char>>,
        });
        match &groups[k] {
            Some(t) => Some(t.as_str()),
            None => None,
        }
    } else {
        None
    }
}

/// What the groups of a matched marker say: the second lists the rules, the third
/// gives the reason.
pub fn read_marker(groups: &Vec<Option<String>>) -> (r: Suppression)
    ensures
        r@ == marker_of(group_texts(groups@)),
{
    Suppression {
        rules: parse_rules(group_text(groups, 1)),
        reason: parse_reason(group_text(groups, 2)),
    }
}

fn marker_on_line(line: &str) -> (r: Option<Suppression>)
    ensures
        match r {
            Some(m) => marker_on(line@) == Some(m@),
            None => marker_on(line@) is None,
        },
{
    match compile(SUPPRESS_MARKER_RE) {
        Some(re) => match captures(&re, line) {
            Some(groups) => Some(read_marker(&groups)),
            None => None,
        },
        None => {
            assert(captured(SUPPRESS_MARKER_RE@, line@) is None);
            None
        },
    }
}

fn suppression_at(source_lines: &Vec<String>, line_no: usize) -> (r: Option<Suppression>)
    ensures
        match r {
            Some(m) => marker_at(texts(source_lines@), line_no - 1) == Some(m@),
            None => marker_at(texts(source_lines@), line_no - 1) is None,
        },
{
    if line_no >= 1 && line_no - 1 < source_lines.len() {
        assert(texts(source_lines@)[line_no - 1] == source_lines@[line_no - 1]@);
        marker_on_line(source_lines[line_no - 1].as_str())
    } else {
        None
    }
}

/// The marker that suppresses a rule on a line: the one on the line, else the one on the
/// line above, if it covers the rule.
pub open spec fn picked(
    rule: Seq<char>,
    own: Option<SuppressionView>,
    above: Option<SuppressionView>,
) -> Option<SuppressionView> {
    let near = match own {
        Some(m) => Some(m),
        None => above,
    };
    match near {
        Some(m) => if covers(m, rule) {
            Some(m)
        } else {
            None
        },
        None => None,
    }
}

/// What an optional marker says.
pub open spec fn opt_marker(m: Option<Suppression>) -> Option<SuppressionView> {
    match m {
        Some(m) => Some(m@),
        None => None,
    }
}

/// The marker that suppresses a rule on a line, out of those on the line and on the line
/// above.
pub fn pick_marker(rule: &str, own: Option<Suppression>, above: Option<Suppression>) -> (r: Option<
    Suppression,
>)
    ensures
        opt_marker(r) == picked(rule@, opt_marker(own), opt_marker(above)),
{
    let near = match own {
        Some(m) => Some(m),
        None => above,
    };
    match near {
        Some(m) => {
            assert(texts(m.rules@).len() == m.rules@.len());
            if m.rules.len() == 0 || contains_text(&m.rules, rule) {
                Some(m)
            } else {
                None
            }
        },
        None => None,
    }
}

/// The marker that suppresses `issue`, if there is one.
pub fn is_suppressed(issue: &Issue, source_lines: &Vec<String>) -> (r: Option<Suppression>)
    ensures
        opt_marker(r) == suppressing(issue@, texts(source_lines@)),
{
    let own = suppression_at(source_lines, issue.line);
    let above = if issue.line >= 1 {
        suppression_at(source_lines, issue.line - 1)
    } else {
        None
    };
    pick_marker(issue.rule, own, above)
}

// ── Laws ────────────────────────────────────────────────────────────────────

/// A marker that lists no rule suppresses every issue of its line and of the next
/// one, unless the latter has a marker of its own.
pub proof fn law_bare_marker_covers_all(issue: IssueView, lines: Seq<Seq<char>>, k: int)
    requires
        0 <= k < lines.len(),
        marker_on(lines[k]) matches Some(m) && m.rules.len() == 0,
        issue.line == k + 1 || (issue.line == k + 2 && marker_at(lines, k + 1) is None),
    ensures
        suppressing(issue, lines) == marker_on(lines[k]),
{
}

/// A marker on an issue's own line decides, whatever the line above says.
pub proof fn law_own_line_decides(
    issue: IssueView,
    lines: Seq<Seq<char>>,
    others: Seq<Seq<char>>,
)
    requires
        0 < issue.line <= lines.len(),
        issue.line <= others.len(),
        lines[issue.line - 1] == others[issue.line - 1],
        marker_on(lines[issue.line - 1]) is Some,
    ensures
        suppressing(issue, lines) == suppressing(issue, others),
{
}

/// An issue is only suppressed by a marker that covers its rule, on its own line or
/// on the line above.
pub proof fn law_only_covering_markers_suppress(issue: IssueView, lines: Seq<Seq<char>>)
    ensures
        suppressing(issue, lines) matches Some(m) ==> covers(m, issue.rule) && (marker_at(
            lines,
            issue.line - 1,
        ) == Some(m) || marker_at(lines, issue.line - 2) == Some(m)),
{
}

/// The rules of a marker are those that its list names, trimmed, each once.
pub proof fn law_rules_are_listed_once(list: Seq<char>)
    ensures
        listed_rules(Some(list)).no_duplicates(),
        forall|rule: Seq<char>|
            listed_rules(Some(list)).contains(rule) <==> split(list, ',').flat_map(
                rule_in(),
            ).contains(rule),
{
    lemma_distinct_texts(split(list, ',').flat_map(rule_in()));
}

/// A marker on the line of an issue suppresses it where it lists the issue's rule or lists
/// none; so does one on the line above, where the issue's own line has no marker.
pub proof fn law_covering_markers_suppress(issue: IssueView, lines: Seq<Seq<char>>, k: int)
    requires
        0 <= k < lines.len(),
        marker_on(lines[k]) matches Some(m) && (m.rules.len() == 0 || m.rules.contains(
            issue.rule,
        )),
        issue.line == k + 1 || (issue.line == k + 2 && (k + 1 < lines.len() ==> marker_on(
            lines[k + 1],
        ) is None)),
    ensures
        suppressing(issue, lines) == marker_on(lines[k]),
{
}

/// An issue is not suppressed where its own line has a marker that lists other rules only,
/// nor where neither its own line nor the line above has a marker that lists no rule or the
/// issue's.
pub proof fn law_other_markers_do_not_suppress(issue: IssueView, lines: Seq<Seq<char>>)
    ensures
        0 < issue.line <= lines.len() && (marker_on(lines[issue.line - 1]) matches Some(m)
            && m.rules.len() > 0 && !m.rules.contains(issue.rule)) ==> suppressing(issue, lines)
            is None,
        (forall|k: int|
            0 <= k < lines.len() && (k + 1 == issue.line || k + 2 == issue.line) ==> (marker_on(
                #[trigger] lines[k],
            ) matches Some(m) ==> m.rules.len() > 0 && !m.rules.contains(issue.rule)))
            ==> suppressing(issue, lines) is None,
{
}

/// Where the pattern matches a line, the line has a marker. It lists the trimmed pieces
/// between the commas of the first group that are not empty, and its reason is the trimmed
/// second group where that is not empty. Where the pattern does not match, there is none.
pub proof fn law_markers_are_read_from_groups(line: Seq<char>)
    ensures
        match captured(SUPPRESS_MARKER_RE@, line) {
            Some(groups) => marker_on(line) matches Some(m) && (groups.len() == 3 ==> {
                &&& match groups[1] {
                    Some(list) => forall|rule: Seq<char>| #[trigger]
                        m.rules.contains(rule) <==> rule.len() > 0 && exists|i: int|
                            0 <= i < split(list, ',').len() && trim(#[trigger] split(list, ',')[i])
                                == rule,
                    None => m.rules.len() == 0,
                }
                &&& match groups[2] {
                    Some(text) => if trim(text).len() > 0 {
                        m.reason == Some(trim(text))
                    } else {
                        m.reason is None
                    },
                    None => m.reason is None,
                }
            }),
            None => marker_on(line) is None,
        },
{
    if let Some(groups) = captured(SUPPRESS_MARKER_RE@, line) {
        if groups.len() == 3 {
            if let Some(list) = groups[1] {
                law_rules_are_listed_once(list);
                let pieces = split(list, ',');
                let m = marker_on(line)->0;
                assert forall|rule: Seq<char>| #[trigger]
                    m.rules.contains(rule) <==> rule.len() > 0 && exists|i: int|
                        0 <= i < pieces.len() && trim(#[trigger] pieces[i]) == rule by {
                    lemma_flat_map_contains(pieces, rule_in(), rule);
                    if m.rules.contains(rule) {
                        let i = choose|i: int|
                            0 <= i < pieces.len() && rule_in()(#[trigger] pieces[i]).contains(rule);
                        assert(trim(pieces[i]) == rule);
                    }
                    if rule.len() > 0 && exists|i: int|
                        0 <= i < pieces.len() && trim(#[trigger] pieces[i]) == rule {
                        let i = choose|i: int|
                            0 <= i < pieces.len() && trim(#[trigger] pieces[i]) == rule;
                        assert(rule_in()(pieces[i])[0] == rule);
                        assert(rule_in()(pieces[i]).contains(rule));
                    }
                }
            }
        }
    }
}

/// Of the markers on an issue's own line and on the line above the first counts; it suppresses
/// the issue where it lists no rule or lists the issue's.
pub proof fn law_nearest_marker_is_picked(
    rule: Seq<char>,
    own: Option<SuppressionView>,
    above: Option<SuppressionView>,
)
    ensures
        own matches Some(m) && (m.rules.len() == 0 || m.rules.contains(rule)) ==> picked(
            rule,
            own,
            above,
        ) == own,
        own is None && (above matches Some(m) && (m.rules.len() == 0 || m.rules.contains(rule)))
            ==> picked(rule, own, above) == above,
        own matches Some(m) && m.rules.len() > 0 && !m.rules.contains(rule) ==> picked(
            rule,
            own,
            above,
        ) is None,
        own is None && (above matches Some(m) ==> m.rules.len() > 0 && !m.rules.contains(rule))
            ==> picked(rule, own, above) is None,
{
}

} // verus!
