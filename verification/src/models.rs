//! What a scan finds and how it is counted.

use crate::paths::{strip_prefix, stripped};
use vstd::prelude::*;

verus! {

// ── Severity ────────────────────────────────────────────────────────────────

/// How serious a finding is, from the least to the most.
#[derive(Debug, Clone, Copy, PartialEq, Eq, PartialOrd, Ord, Structural)]
pub enum Severity {
    Info,
    Warning,
    Error,
}

impl Severity {
    /// The word for a severity.
    pub open spec fn word(self) -> Seq<char> {
        match self {
            Severity::Info => "info"@,
            Severity::Warning => "warning"@,
            Severity::Error => "error"@,
        }
    }

    /// The word for a severity.
    pub fn as_str(&self) -> (r: &'static str)
        ensures
            r@ == self.word(),
    {
        match self {
            Severity::Info => "info",
            Severity::Warning => "warning",
            Severity::Error => "error",
        }
    }
}

// ── Findings ────────────────────────────────────────────────────────────────

/// One finding of one rule.
#[derive(Debug, Clone)]
pub struct Issue {
    pub file: String,
    pub line: usize,
    pub severity: Severity,
    pub rule: &'static str,
    pub message: String,
    pub package: String,
    /// The justification that a `# spaghetti-ignore: ...` marker gives. Only
    /// findings that ended up in `ScanResult::ignored` have one.
    pub reason: Option<String>,
}

/// What an `Issue` says.
pub struct IssueView {
    pub file: Seq<char>,
    pub line: nat,
    pub severity: Severity,
    pub rule: Seq<char>,
    pub message: Seq<char>,
    pub package: Seq<char>,
    pub reason: Option<Seq<char>>,
}

/// What an optional string holds.
pub open spec fn opt_text(t: Option<String>) -> Option<Seq<char>> {
    match t {
        Some(s) => Some(s@),
        None => None,
    }
}

/// What an optional string slice holds.
pub open spec fn opt_str(t: Option<&str>) -> Option<Seq<char>> {
    match t {
        Some(s) => Some(s@),
        None => None,
    }
}

impl View for Issue {
    type V = IssueView;

    open spec fn view(&self) -> IssueView {
        IssueView {
            file: self.file@,
            line: self.line as nat,
            severity: self.severity,
            rule: self.rule@,
            message: self.message@,
            package: self.package@,
            reason: opt_text(self.reason),
        }
    }
}

/// What a list of issues says.
pub open spec fn issue_views(v: Seq<Issue>) -> Seq<IssueView> {
    v.map_values(|i: Issue| i@)
}

/// What a list of references to issues says.
pub open spec fn ref_views(v: Seq<&Issue>) -> Seq<IssueView> {
    v.map_values(|i: &Issue| i@)
}

/// A finding without a justification.
pub open spec fn finding(
    file: Seq<char>,
    line: nat,
    severity: Severity,
    rule: Seq<char>,
    package: Seq<char>,
    message: Seq<char>,
) -> IssueView {
    IssueView { file, line, severity, rule, message, package, reason: None }
}

/// A finding without a justification.
pub fn issue(
    filepath: &str,
    line: usize,
    severity: Severity,
    rule: &'static str,
    package: &str,
    message: String,
) -> (r: Issue)
    ensures
        r@ == finding(filepath@, line as nat, severity, rule@, package@, message@),
{
    Issue {
        file: filepath.to_owned(),
        line,
        severity,
        rule,
        message,
        package: package.to_owned(),
        reason: None,
    }
}

/// Puts `x` behind the issues found so far.
pub fn push_issue(v: &mut Vec<Issue>, x: Issue)
    ensures
        issue_views(final(v)@) == issue_views(old(v)@) + seq![x@],
        final(v)@ == old(v)@.push(x),
{
    v.push(x);
    assert(issue_views(v@) =~= issue_views(old(v)@) + seq![x@]);
}

/// Puts the issues of `more` behind those found so far.
pub fn append_issues(v: &mut Vec<Issue>, more: Vec<Issue>)
    ensures
        issue_views(final(v)@) == issue_views(old(v)@) + issue_views(more@),
        final(v)@ == old(v)@ + more@,
{
    let mut rest = more;
    v.append(&mut rest);
    assert(issue_views(v@) =~= issue_views(old(v)@) + issue_views(more@));
}

/// A path relative to the workspace where it lies in it, else as it is.
pub open spec fn shown_path(path: Seq<char>, workspace_root: Option<Seq<char>>) -> Seq<char> {
    match workspace_root {
        Some(root) => match strip_prefix(path, root) {
            Some(rel) => rel,
            None => path,
        },
        None => path,
    }
}

/// A path relative to the workspace where it lies in it, else as it is.
pub fn display_path(path: &str, workspace_root: Option<&str>) -> (r: String)
    ensures
        r@ == shown_path(path@, opt_str(workspace_root)),
{
    match workspace_root {
        Some(root) => match stripped(path, root) {
            Some(rel) => rel,
            None => path.to_owned(),
        },
        None => path.to_owned(),
    }
}

// ── Configuration of a scan ─────────────────────────────────────────────────

/// A share between two whole numbers.
#[derive(Debug, Clone, Copy, PartialEq, Eq, Structural)]
pub struct Ratio {
    pub numerator: u32,
    pub denominator: u32,
}

/// The knobs of a package scan.
#[derive(Debug, Clone)]
pub struct ScanConfig {
    /// Files whose path holds one of these texts are left out.
    pub exclude: Vec<String>,
    /// How many lines a function has at least for its body to count as duplicated.
    pub min_duplicate_lines: usize,
    /// How similar two functions are at least to count as twins.
    pub twin_similarity: Ratio,
    /// Whether subdirectories are scanned too.
    pub recursive: bool,
}

/// One action of a remediation plan.
#[derive(Debug, Clone)]
pub struct RemediationStep {
    pub priority: &'static str,
    pub rule: &'static str,
    pub severity: Severity,
    pub effort: &'static str,
    pub files: Vec<String>,
    pub count: usize,
    pub description: String,
    /// The priority score in twentieths.
    pub score: u32,
}

// ── Results ─────────────────────────────────────────────────────────────────

/// What scanning one or more packages gave.
#[derive(Debug)]
pub struct ScanResult {
    pub issues: Vec<Issue>,
    pub files_scanned: usize,
    pub functions_scanned: usize,
    pub total_lines: usize,
    pub suppressed: usize,
    /// The issues that an inline `# spaghetti-ignore` marker suppressed, each with
    /// the reason that its marker gives, if any.
    pub ignored: Vec<Issue>,
}

/// What a `ScanResult` says.
pub struct ResultView {
    pub issues: Seq<IssueView>,
    pub files_scanned: nat,
    pub functions_scanned: nat,
    pub total_lines: nat,
    pub suppressed: nat,
    pub ignored: Seq<IssueView>,
}

impl View for ScanResult {
    type V = ResultView;

    open spec fn view(&self) -> ResultView {
        ResultView {
            issues: issue_views(self.issues@),
            files_scanned: self.files_scanned as nat,
            functions_scanned: self.functions_scanned as nat,
            total_lines: self.total_lines as nat,
            suppressed: self.suppressed as nat,
            ignored: issue_views(self.ignored@),
        }
    }
}

/// The result of scanning nothing.
pub open spec fn empty_result() -> ResultView {
    ResultView {
        issues: seq![],
        files_scanned: 0,
        functions_scanned: 0,
        total_lines: 0,
        suppressed: 0,
        ignored: seq![],
    }
}

/// Two results, the second behind the first.
pub open spec fn combined(a: ResultView, b: ResultView) -> ResultView {
    ResultView {
        issues: a.issues + b.issues,
        files_scanned: a.files_scanned + b.files_scanned,
        functions_scanned: a.functions_scanned + b.functions_scanned,
        total_lines: a.total_lines + b.total_lines,
        suppressed: a.suppressed + b.suppressed,
        ignored: a.ignored + b.ignored,
    }
}

/// Whether the counters of a result fit a machine word.
pub open spec fn countable(r: ResultView) -> bool {
    &&& r.files_scanned <= usize::MAX
    &&& r.functions_scanned <= usize::MAX
    &&& r.total_lines <= usize::MAX
    &&& r.suppressed <= usize::MAX
}

/// How many issues have a given severity.
pub open spec fn count_of(issues: Seq<IssueView>, severity: Severity) -> nat
    decreases issues.len(),
{
    if issues.len() == 0 {
        0
    } else {
        count_of(issues.drop_last(), severity) + if issues.last().severity == severity {
            1nat
        } else {
            0nat
        }
    }
}

/// How many issues have a given severity.
pub fn count_severity(issues: &Vec<Issue>, severity: Severity) -> (r: usize)
    ensures
        r == count_of(issue_views(issues@), severity),
        r <= issues@.len(),
{
    let ghost all = issue_views(issues@);
    let mut n: usize = 0;
    let mut i: usize = 0;
    while i < issues.len()
        invariant
            i <= issues@.len(),
            all == issue_views(issues@),
            n <= i,
            n == count_of(all.take(i as int), severity),
        decreases issues@.len() - i,
    {
        assert(all.take(i + 1).drop_last() =~= all.take(i as int));
        assert(all.take(i + 1).last() == issues@[i as int]@);
        if issues[i].severity == severity {
            n += 1;
        }
        i += 1;
    }
    assert(all.take(i as int) =~= all);
    n
}

/// How many issues of a selection have a given severity.
pub fn count_selected(issues: &Vec<&Issue>, severity: Severity) -> (r: usize)
    ensures
        r == count_of(ref_views(issues@), severity),
        r <= issues@.len(),
{
    let ghost all = ref_views(issues@);
    let mut n: usize = 0;
    let mut i: usize = 0;
    while i < issues.len()
        invariant
            i <= issues@.len(),
            all == ref_views(issues@),
            n <= i,
            n == count_of(all.take(i as int), severity),
        decreases issues@.len() - i,
    {
        assert(all.take(i + 1).drop_last() =~= all.take(i as int));
        assert(all.take(i + 1).last() == issues@[i as int]@);
        if issues[i].severity == severity {
            n += 1;
        }
        i += 1;
    }
    assert(all.take(i as int) =~= all);
    n
}

impl Default for ScanResult {
    fn default() -> (r: Self)
        ensures
            r@ == empty_result(),
    {
        let r = ScanResult {
            issues: Vec::new(),
            files_scanned: 0,
            functions_scanned: 0,
            total_lines: 0,
            suppressed: 0,
            ignored: Vec::new(),
        };
        assert(issue_views(r.issues@) =~= seq![]);
        assert(issue_views(r.ignored@) =~= seq![]);
        r
    }
}

impl ScanResult {
    /// How many issues are errors.
    pub fn error_count(&self) -> (r: usize)
        ensures
            r == count_of(self@.issues, Severity::Error),
    {
        count_severity(&self.issues, Severity::Error)
    }

    /// How many issues are warnings.
    pub fn warning_count(&self) -> (r: usize)
        ensures
            r == count_of(self@.issues, Severity::Warning),
    {
        count_severity(&self.issues, Severity::Warning)
    }

    /// How many issues are informational.
    pub fn info_count(&self) -> (r: usize)
        ensures
            r == count_of(self@.issues, Severity::Info),
    {
        count_severity(&self.issues, Severity::Info)
    }

    /// Adds the counts and the issues of `other`.
    pub fn extend(&mut self, other: ScanResult)
        requires
            countable(combined(old(self)@, other@)),
        ensures
            final(self)@ == combined(old(self)@, other@),
    {
        append_issues(&mut self.issues, other.issues);
        self.files_scanned += other.files_scanned;
        self.functions_scanned += other.functions_scanned;
        self.total_lines += other.total_lines;
        self.suppressed += other.suppressed;
        append_issues(&mut self.ignored, other.ignored);
    }
}

// ── Laws ────────────────────────────────────────────────────────────────────

/// Every issue is an error, a warning or informational.
pub proof fn law_severities_add_up(issues: Seq<IssueView>)
    ensures
        count_of(issues, Severity::Error) + count_of(issues, Severity::Warning) + count_of(
            issues,
            Severity::Info,
        ) == issues.len(),
    decreases issues.len(),
{
    if issues.len() > 0 {
        law_severities_add_up(issues.drop_last());
    }
}

/// Combining two results adds up how many issues of each severity they have.
pub proof fn law_combining_adds_counts(a: ResultView, b: ResultView, severity: Severity)
    ensures
        count_of(combined(a, b).issues, severity) == count_of(a.issues, severity) + count_of(
            b.issues,
            severity,
        ),
    decreases b.issues.len(),
{
    if b.issues.len() == 0 {
        assert(a.issues + b.issues =~= a.issues);
    } else {
        let rest = ResultView { issues: b.issues.drop_last(), ..b };
        law_combining_adds_counts(a, rest, severity);
        assert((a.issues + b.issues).drop_last() =~= a.issues + rest.issues);
    }
}

/// Combining is associative, and the empty result changes nothing.
pub proof fn law_combining_is_associative(a: ResultView, b: ResultView, c: ResultView)
    ensures
        combined(combined(a, b), c) == combined(a, combined(b, c)),
        combined(a, empty_result()) == a,
        combined(empty_result(), a) == a,
{
    assert((a.issues + b.issues) + c.issues =~= a.issues + (b.issues + c.issues));
    assert((a.ignored + b.ignored) + c.ignored =~= a.ignored + (b.ignored + c.ignored));
    assert(a.issues + Seq::<IssueView>::empty() =~= a.issues);
    assert(a.ignored + Seq::<IssueView>::empty() =~= a.ignored);
    assert(Seq::<IssueView>::empty() + a.issues =~= a.issues);
    assert(Seq::<IssueView>::empty() + a.ignored =~= a.ignored);
}

/// There are findings of a severity exactly where one of the findings has it.
pub proof fn law_counted_severities_occur(issues: Seq<IssueView>, severity: Severity)
    ensures
        count_of(issues, severity) > 0 <==> exists|i: int|
            0 <= i < issues.len() && (#[trigger] issues[i]).severity == severity,
        count_of(issues, severity) <= issues.len(),
    decreases issues.len(),
{
    if issues.len() > 0 {
        let rest = issues.drop_last();
        law_counted_severities_occur(rest, severity);
        assert(issues[issues.len() - 1] == issues.last());
        if count_of(rest, severity) > 0 {
            let i = choose|i: int|
                0 <= i < rest.len() && (#[trigger] rest[i]).severity == severity;
            assert(issues[i] == rest[i]);
        }
        if exists|i: int| 0 <= i < issues.len() && (#[trigger] issues[i]).severity == severity {
            let i = choose|i: int|
                0 <= i < issues.len() && (#[trigger] issues[i]).severity == severity;
            if i < rest.len() {
                assert(rest[i] == issues[i]);
            }
        }
    }
}

/// A path in the workspace is shown without that of the workspace; any other is shown as it is.
pub proof fn law_paths_are_shown_from_the_workspace(path: Seq<char>, root: Seq<char>)
    ensures
        strip_prefix(path, root) matches Some(rel) ==> shown_path(path, Some(root)) == rel,
        strip_prefix(path, root) is None ==> shown_path(path, Some(root)) == path,
        shown_path(path, None) == path,
{
}

} // verus!
