//! Checks of a file's text.

use crate::checks::common::{none, one};
use crate::config::{MAX_FILE_LINES, TODO_RE};
use crate::models::{finding, issue, issue_views, push_issue, Issue, IssueView, Severity};
use crate::patterns::{captured, captures, compile, group_texts};
use crate::text::{chars_of, count_text, dec, lines, lines_of, text_of, texts, trim, trimmed};
use vstd::prelude::*;
use vstd::string::*;

verus! {

// ── Long files ──────────────────────────────────────────────────────────────

/// A file of too many lines.
pub open spec fn long_file(source: Seq<char>, file: Seq<char>, package: Seq<char>) -> Seq<
    IssueView,
> {
    let count = lines(source).len();
    if count > MAX_FILE_LINES {
        seq![
            finding(
                file,
                1,
                Severity::Warning,
                "long-file"@,
                package,
                "File is "@ + dec(count) + " lines (max "@ + dec(MAX_FILE_LINES as nat) + ")"@,
            ),
        ]
    } else {
        seq![]
    }
}

/// A file of too many lines.
pub fn check_long_file(source: &str, filepath: &str, package: &str) -> (r: Vec<Issue>)
    ensures
        issue_views(r@) == long_file(source@, filepath@, package@),
{
    let all = lines_of(source);
    let count: usize = all.len();
    assert(texts(all@).len() == count);
    if count > MAX_FILE_LINES {
        let message = "File is ".to_owned().concat(count_text(count).as_str()).concat(
            " lines (max ",
        ).concat(count_text(MAX_FILE_LINES).as_str()).concat(")");
        one(issue(filepath, 1, Severity::Warning, "long-file", package, message))
    } else {
        none()
    }
}

// ── Markers for unfinished work ─────────────────────────────────────────────

/// How long a line may be in a report.
pub const MAX_SNIPPET: usize = 90;

/// How much of a longer line is shown.
pub const SHORT_SNIPPET: usize = 87;

/// A line as a report shows it: without the white space around it, and cut short.
pub open spec fn snippet(line: Seq<char>) -> Seq<char> {
    let t = trim(line);
    if t.len() > MAX_SNIPPET {
        t.take(SHORT_SNIPPET as int) + "..."@
    } else {
        t
    }
}

/// The marker that a line holds: what the first group of the pattern captured.
pub open spec fn marker_in(line: Seq<char>) -> Option<Seq<char>> {
    match captured(TODO_RE@, line) {
        Some(groups) => if groups.len() > 1 {
            groups[1]
        } else {
            None
        },
        None => None,
    }
}

/// The marker of the line at place `k`.
pub open spec fn todo_line(
    file: Seq<char>,
    package: Seq<char>,
    line: Seq<char>,
    k: int,
) -> Seq<IssueView> {
    match marker_in(line) {
        Some(marker) => seq![
            finding(
                file,
                (k + 1) as nat,
                Severity::Info,
                "todo-marker"@,
                package,
                marker + " marker: "@ + snippet(line),
            ),
        ],
        None => seq![],
    }
}

/// The markers of a list of lines, which begins at the first line of a file.
pub open spec fn todo_lines(file: Seq<char>, package: Seq<char>, all: Seq<Seq<char>>) -> Seq<
    IssueView,
>
    decreases all.len(),
{
    if all.len() == 0 {
        seq![]
    } else {
        todo_lines(file, package, all.drop_last()) + todo_line(
            file,
            package,
            all.last(),
            all.len() - 1,
        )
    }
}

/// The markers of a file.
pub open spec fn todo_markers(source: Seq<char>, file: Seq<char>, package: Seq<char>) -> Seq<
    IssueView,
> {
    todo_lines(file, package, lines(source))
}

fn shorten(line: &str) -> (r: String)
    ensures
        r@ == snippet(line@),
{
    let t = trimmed(line);
    let chars = chars_of(t.as_str());
    if chars.len() > MAX_SNIPPET {
        assert(chars@.subrange(0, SHORT_SNIPPET as int) =~= t@.take(SHORT_SNIPPET as int));
        text_of(&chars, 0, SHORT_SNIPPET).concat("...")
    } else {
        t
    }
}

/// The issue for a marker on line `line_no`.
pub fn todo_issue(filepath: &str, package: &str, line: &str, line_no: usize, marker: &str) -> (r:
    Issue)
    ensures
        r@ == finding(
            filepath@,
            line_no as nat,
            Severity::Info,
            "todo-marker"@,
            package@,
            marker@ + " marker: "@ + snippet(line@),
        ),
{
    let message = marker.to_owned().concat(" marker: ").concat(shorten(line).as_str());
    issue(filepath, line_no, Severity::Info, "todo-marker", package, message)
}

/// The markers of a file.
pub fn check_todo_markers(source: &str, filepath: &str, package: &str) -> (r: Vec<Issue>)
    ensures
        issue_views(r@) == todo_markers(source@, filepath@, package@),
{
    let found = lines_of(source);
    let ghost all = texts(found@);
    let re = compile(TODO_RE);
    let count: usize = found.len();
    let mut issues = none();
    let mut i: usize = 0;
    while i < count
        invariant
            i <= count,
            count == found@.len(),
            all == texts(found@),
            re matches Some(x) ==> crate::patterns::pattern_of(x) == TODO_RE@,
            re is None ==> forall|text: Seq<char>| #[trigger] captured(TODO_RE@, text) is None,
            issue_views(issues@) == todo_lines(filepath@, package@, all.take(i as int)),
        decreases count - i,
    {
        let line = found[i].as_str();
        let ghost before = issue_views(issues@);
        proof {
            assert(all.take(i + 1).drop_last() =~= all.take(i as int));
            assert(all.take(i + 1).last() == line@);
            assert(before + seq![] =~= before);
        }
        if let Some(x) = &re {
            if let Some(groups) = captures(x, line) {
                assert(group_texts(groups@).len() == groups@.len());
                if groups.len() > 1 {
                    assert(group_texts(groups@)[1] == match groups@[1] {
                        Some(t) => Some(t@),
                        None => None::<Seq<char>>,
                    });
                    if let Some(marker) = &groups[1] {
                        push_issue(
                            &mut issues,
                            todo_issue(filepath, package, line, i + 1, marker.as_str()),
                        );
                    }
                }
            }
        } else {
            assert(captured(TODO_RE@, line@) is None);
        }
        i += 1;
    }
    assert(all.take(i as int) =~= all);
    issues
}

// ── Laws ────────────────────────────────────────────────────────────────────

/// A file of more than four hundred lines is reported, once, and no other.
pub proof fn law_long_files_are_reported(source: Seq<char>, file: Seq<char>, package: Seq<char>)
    ensures
        lines(source).len() > 400 ==> long_file(source, file, package).len() == 1 && long_file(
            source,
            file,
            package,
        )[0] == (IssueView {
            file,
            line: 1,
            severity: Severity::Warning,
            rule: "long-file"@,
            message: long_file(source, file, package)[0].message,
            package,
            reason: None,
        }),
        lines(source).len() <= 400 ==> long_file(source, file, package).len() == 0,
{
}

/// A line in which the pattern finds a marker is reported under its number, counted from one.
pub proof fn law_markers_are_reported(
    source: Seq<char>,
    file: Seq<char>,
    package: Seq<char>,
    k: int,
    marker: Seq<char>,
)
    requires
        0 <= k < lines(source).len(),
        captured(TODO_RE@, lines(source)[k]) matches Some(groups) && groups.len() > 1 && groups[1]
            == Some(marker),
    ensures
        exists|i: int|
            0 <= i < todo_markers(source, file, package).len() && is_marker_on(
                #[trigger] todo_markers(source, file, package)[i],
                file,
                package,
                k,
                marker,
            ),
{
    lemma_todo_lines(file, package, lines(source), k, marker);
    let all = todo_lines(file, package, lines(source));
    let i = choose|i: int|
        0 <= i < all.len() && is_marker_on(#[trigger] all[i], file, package, k, marker);
    assert(is_marker_on(todo_markers(source, file, package)[i], file, package, k, marker));
}

/// Whether a finding is on a marker of the line at place `k`.
pub open spec fn is_marker_on(
    x: IssueView,
    file: Seq<char>,
    package: Seq<char>,
    k: int,
    marker: Seq<char>,
) -> bool {
    x.line == k + 1 && x.rule == "todo-marker"@ && x.severity == Severity::Info && x.file == file
        && x.package == package && (marker + " marker: "@).is_prefix_of(x.message)
}

proof fn lemma_todo_lines(
    file: Seq<char>,
    package: Seq<char>,
    all: Seq<Seq<char>>,
    k: int,
    marker: Seq<char>,
)
    requires
        0 <= k < all.len(),
        captured(TODO_RE@, all[k]) matches Some(groups) && groups.len() > 1 && groups[1] == Some(
            marker,
        ),
    ensures
        exists|i: int|
            0 <= i < todo_lines(file, package, all).len() && is_marker_on(
                #[trigger] todo_lines(file, package, all)[i],
                file,
                package,
                k,
                marker,
            ),
    decreases all.len(),
{
    let rest = all.drop_last();
    let before = todo_lines(file, package, rest);
    let now = todo_lines(file, package, all);
    if k < rest.len() {
        lemma_todo_lines(file, package, rest, k, marker);
        let i = choose|i: int|
            0 <= i < before.len() && is_marker_on(#[trigger] before[i], file, package, k, marker);
        assert(now[i] == before[i]);
    } else {
        let x = now[before.len() as int];
        let head = marker + " marker: "@;
        assert(x.message.take(head.len() as int) =~= head);
        assert(is_marker_on(now[before.len() as int], file, package, k, marker));
    }
}

/// What is reported as a marker is on a line in which the pattern finds one.
pub proof fn law_reported_markers_are_there(
    source: Seq<char>,
    file: Seq<char>,
    package: Seq<char>,
    i: int,
) -> (k: int)
    requires
        0 <= i < todo_markers(source, file, package).len(),
    ensures
        0 <= k < lines(source).len(),
        captured(TODO_RE@, lines(source)[k]) matches Some(groups) && groups.len() > 1
            && groups[1] is Some && is_marker_on(
            todo_markers(source, file, package)[i],
            file,
            package,
            k,
            groups[1]->0,
        ),
{
    lemma_reported_lines(file, package, lines(source), i)
}

proof fn lemma_reported_lines(
    file: Seq<char>,
    package: Seq<char>,
    all: Seq<Seq<char>>,
    i: int,
) -> (k: int)
    requires
        0 <= i < todo_lines(file, package, all).len(),
    ensures
        0 <= k < all.len(),
        captured(TODO_RE@, all[k]) matches Some(groups) && groups.len() > 1 && groups[1] is Some
            && is_marker_on(
            todo_lines(file, package, all)[i],
            file,
            package,
            k,
            groups[1]->0,
        ),
    decreases all.len(),
{
    let rest = all.drop_last();
    let before = todo_lines(file, package, rest);
    if i < before.len() {
        lemma_reported_lines(file, package, rest, i)
    } else {
        let x = todo_lines(file, package, all)[i];
        let groups = captured(TODO_RE@, all.last())->0;
        let head = groups[1]->0 + " marker: "@;
        assert(x.message.take(head.len() as int) =~= head);
        all.len() - 1
    }
}

/// A line is shown without the white space around it, and at most ninety characters of it: of a
/// longer one the first eighty-seven and three dots.
pub proof fn law_snippets_are_short(line: Seq<char>)
    ensures
        snippet(line).len() <= 90,
        trim(line).len() <= 90 ==> snippet(line) == trim(line),
        trim(line).len() > 90 ==> snippet(line) == trim(line).take(87) + "..."@,
{
    reveal_strlit("...");
}

} // verus!
