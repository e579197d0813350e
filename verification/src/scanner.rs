//! Scanning a package: every check on every file, the checks on the package, and
//! then the inline markers.
//!
//! Markers are applied once, to all findings together: a finding on the package is
//! attributed to some file of it and obeys the markers there like any other.

use crate::ast_helpers::functions;
use crate::checks::ast_per_file::{
    all_checks, count_functions, file_findings, pkg_root_checks, placed_findings,
};
use crate::checks::common::{body_of, none, site_of};
use crate::checks::cycles::{import_cycles, import_graph, without_dots};
use crate::checks::duplicates::{bodies, duplicate_functions, duplicate_issue, keys};
use crate::checks::package_level::{
    check_duplicate_functions_pkg, check_import_cycles_pkg, check_sync_async_twins_pkg,
    ParsedFile,
};
use crate::checks::provenance::{
    are_on, law_file_findings_are_on_the_package, law_package_findings_are_on_the_package,
    law_text_findings_are_on_the_package, lemma_both_on, lemma_each_on,
};
use crate::checks::text_per_file::{check_long_file, check_todo_markers, long_file, todo_markers};
use crate::checks::twins::{all_members, is_same_path, pairs, same_path, sync_async_twins};
use crate::config::own_prefix;
use crate::graph::law_no_edges_no_cycles;
use crate::models::{
    append_issues, empty_result, finding, issue, issue_views, opt_text, push_issue, Issue,
    IssueView, Ratio, ResultView, ScanConfig, ScanResult, Severity,
};
use crate::order::lemma_flat_map_contains;
use crate::paths::{components, components_of, is_python_file, is_python_path};
use crate::suppression::{is_suppressed, suppressing, Suppression, SuppressionView};
use crate::syntax::{parse, parsed};
use crate::text::{contains, law_occurrences_start_somewhere, lines, lines_of, occurs, texts};
use rustpython_ast::Mod;
use vstd::prelude::*;
use vstd::string::*;
use vstd::utf8::encode_utf8;

verus! {

/// A file and what it holds.
pub struct SourceFile {
    pub path: String,
    pub source: String,
}

/// What a configuration says.
pub struct ConfigView {
    pub exclude: Seq<Seq<char>>,
    pub min_duplicate_lines: nat,
    pub twin_similarity: Ratio,
    pub recursive: bool,
}

/// What a configuration says.
pub open spec fn config_view(c: ScanConfig) -> ConfigView {
    ConfigView {
        exclude: texts(c.exclude@),
        min_duplicate_lines: c.min_duplicate_lines as nat,
        twin_similarity: c.twin_similarity,
        recursive: c.recursive,
    }
}

// ── Which files are scanned ─────────────────────────────────────────────────

/// Whether one of the patterns stands anywhere in a path.
pub open spec fn is_excluded(exclude: Seq<Seq<char>>, path: Seq<char>) -> bool {
    exists|i: int| 0 <= i < exclude.len() && occurs(#[trigger] exclude[i], path)
}

/// Whether a file below `root` is scanned: Python source that is neither cached nor
/// excluded, and that lies directly in `root` where subdirectories are left out.
pub open spec fn is_scanned(root: Seq<char>, path: Seq<char>, config: ConfigView) -> bool {
    &&& is_python_path(path)
    &&& !occurs("__pycache__"@, path)
    &&& !is_excluded(config.exclude, path)
    &&& config.recursive || components(path).len() <= components(root).len() + 1
}

fn excluded(exclude: &Vec<String>, path: &str) -> (r: bool)
    ensures
        r == is_excluded(texts(exclude@), path@),
{
    let ghost all = texts(exclude@);
    let mut i: usize = 0;
    while i < exclude.len()
        invariant
            i <= exclude@.len(),
            all == texts(exclude@),
            forall|k: int| 0 <= k < i ==> !occurs(#[trigger] all[k], path@),
        decreases exclude@.len() - i,
    {
        assert(all[i as int] == exclude@[i as int]@);
        if contains(path, exclude[i].as_str()) {
            return true;
        }
        i += 1;
    }
    false
}

/// Whether a file below `root` is scanned.
pub fn is_scanned_path(root: &str, path: &str, config: &ScanConfig) -> (r: bool)
    ensures
        r == is_scanned(root@, path@, config_view(*config)),
{
    if !is_python_file(path) || contains(path, "__pycache__") || excluded(&config.exclude, path) {
        return false;
    }
    if config.recursive {
        return true;
    }
    let inner = components_of(path);
    let outer = components_of(root);
    assert(texts(inner@).len() == inner@.len());
    assert(texts(outer@).len() == outer@.len());
    inner.len() <= outer.len() || inner.len() - outer.len() <= 1
}

/// The file, if it is scanned.
pub open spec fn if_scanned(root: Seq<char>, config: ConfigView) -> spec_fn(SourceFile) -> Seq<
    SourceFile,
> {
    |f: SourceFile|
        if is_scanned(root, f.path@, config) {
            seq![f]
        } else {
            seq![]
        }
}

/// The files that are scanned.
pub open spec fn scanned(files: Seq<SourceFile>, root: Seq<char>, config: ConfigView) -> Seq<
    SourceFile,
> {
    files.flat_map(if_scanned(root, config))
}

// ── One file ────────────────────────────────────────────────────────────────

/// The outcome of parsing a file.
pub open spec fn outcome(parsed: Result<Mod, String>) -> Result<Mod, Seq<char>> {
    match parsed {
        Ok(m) => Ok(m),
        Err(e) => Err(e@),
    }
}

/// The findings on a file, of the checks that look at that file alone.
pub open spec fn file_report(
    parsed: Result<Mod, Seq<char>>,
    source: Seq<char>,
    path: Seq<char>,
    package: Seq<char>,
    root: Seq<char>,
) -> Seq<IssueView> {
    long_file(source, path, package) + todo_markers(source, path, package) + (match parsed {
        Ok(module) => file_findings(module, site_of(source, path, package)) + placed_findings(
            module,
            site_of(source, path, package),
            root,
        ),
        Err(e) => seq![
            finding(
                path,
                1,
                Severity::Error,
                "syntax-error"@,
                package,
                "Failed to parse file — syntax error: "@ + e,
            ),
        ],
    })
}

/// The findings on a file, of the checks that look at that file alone.
pub fn report_file(
    parsed: &Result<Mod, String>,
    source: &str,
    path: &str,
    package: &str,
    root: &str,
) -> (r: Vec<Issue>)
    ensures
        issue_views(r@) == file_report(outcome(*parsed), source@, path@, package@, root@),
{
    let mut issues = check_long_file(source, path, package);
    append_issues(&mut issues, check_todo_markers(source, path, package));
    let ghost before = issue_views(issues@);
    match parsed {
        Ok(module) => {
            append_issues(&mut issues, all_checks(module, source, path, package));
            append_issues(&mut issues, pkg_root_checks(module, source, path, package, root));
            proof {
                let site = site_of(source@, path@, package@);
                assert(before + file_findings(*module, site) + placed_findings(*module, site, root@)
                    =~= before + (file_findings(*module, site) + placed_findings(
                    *module,
                    site,
                    root@,
                )));
            }
        },
        Err(e) => {
            let message = "Failed to parse file — syntax error: ".to_owned().concat(e.as_str());
            push_issue(
                &mut issues,
                issue(path, 1, Severity::Error, "syntax-error", package, message),
            );
        },
    }
    issues
}

/// The findings on a file, of the checks that look at that file alone.
pub open spec fn each_report(package: Seq<char>, root: Seq<char>) -> spec_fn(SourceFile) -> Seq<
    IssueView,
> {
    |f: SourceFile|
        file_report(parsed(f.source@, f.path@), f.source@, f.path@, package, root)
}

/// The file with its syntax tree, if it has one.
pub open spec fn if_parsed() -> spec_fn(SourceFile) -> Seq<ParsedFile> {
    |f: SourceFile|
        match parsed(f.source@, f.path@) {
            Ok(module) => seq![ParsedFile { path: f.path, source: f.source, module }],
            Err(_) => seq![],
        }
}

/// A count as far as a machine word reaches.
pub open spec fn capped(n: nat) -> nat {
    if n <= usize::MAX {
        n
    } else {
        usize::MAX as nat
    }
}

/// How many lines files have in all.
pub open spec fn line_total(files: Seq<SourceFile>) -> nat
    decreases files.len(),
{
    if files.len() == 0 {
        0
    } else {
        line_total(files.drop_last()) + lines(files.last().source@).len()
    }
}

/// How many functions parsed files define in all.
pub open spec fn function_total(files: Seq<ParsedFile>) -> nat
    decreases files.len(),
{
    if files.len() == 0 {
        0
    } else {
        function_total(files.drop_last()) + functions(body_of(files.last().module)).len()
    }
}

/// The findings on the files and on the package together, before markers.
pub open spec fn all_findings(
    package: Seq<char>,
    root: Seq<char>,
    files: Seq<SourceFile>,
    config: ConfigView,
) -> Seq<IssueView> {
    let trees = files.flat_map(if_parsed());
    files.flat_map(each_report(package, root)) + import_cycles(package, trees, root)
        + duplicate_functions(package, trees, config.min_duplicate_lines) + sync_async_twins(
        package,
        trees,
        config.twin_similarity,
    )
}

// ── Markers ─────────────────────────────────────────────────────────────────

/// The lines of the file with the given path: of several the first.
pub open spec fn lines_for(files: Seq<SourceFile>, path: Seq<char>) -> Option<Seq<Seq<char>>>
    decreases files.len(),
{
    if files.len() == 0 {
        None
    } else if same_path(files[0].path@, path) {
        Some(lines(files[0].source@))
    } else {
        lines_for(files.skip(1), path)
    }
}

/// The marker that suppresses a finding.
pub open spec fn suppressor(files: Seq<SourceFile>, i: IssueView) -> Option<SuppressionView> {
    match lines_for(files, i.file) {
        Some(l) => suppressing(i, l),
        None => None,
    }
}

/// The finding, if no marker suppresses it.
pub open spec fn if_kept(files: Seq<SourceFile>) -> spec_fn(IssueView) -> Seq<IssueView> {
    |i: IssueView|
        match suppressor(files, i) {
            Some(_) => seq![],
            None => seq![i],
        }
}

/// The finding with the reason of its marker, if a marker suppresses it.
pub open spec fn if_ignored(files: Seq<SourceFile>) -> spec_fn(IssueView) -> Seq<IssueView> {
    |i: IssueView|
        match suppressor(files, i) {
            Some(m) => seq![IssueView { reason: m.reason, ..i }],
            None => seq![],
        }
}

/// The result of scanning a package.
pub open spec fn scan_result(
    package: Seq<char>,
    root: Seq<char>,
    all: Seq<SourceFile>,
    config: ConfigView,
) -> ResultView {
    let files = scanned(all, root, config);
    let found = all_findings(package, root, files, config);
    ResultView {
        issues: found.flat_map(if_kept(files)),
        files_scanned: files.len(),
        functions_scanned: capped(function_total(files.flat_map(if_parsed()))),
        total_lines: capped(line_total(files)),
        suppressed: found.flat_map(if_ignored(files)).len(),
        ignored: found.flat_map(if_ignored(files)),
    }
}

spec fn file_values(v: Seq<&SourceFile>) -> Seq<SourceFile> {
    v.map_values(|f: &SourceFile| *f)
}

fn keep_scanned<'a>(files: &'a Vec<SourceFile>, root: &str, config: &ScanConfig) -> (r: Vec<
    &'a SourceFile,
>)
    ensures
        file_values(r@) == scanned(files@, root@, config_view(*config)),
{
    let ghost f = if_scanned(root@, config_view(*config));
    let mut out: Vec<&'a SourceFile> = Vec::new();
    let mut i: usize = 0;
    assert(file_values(out@) =~= files@.take(0).flat_map(f));
    while i < files.len()
        invariant
            i <= files@.len(),
            f == if_scanned(root@, config_view(*config)),
            file_values(out@) == files@.take(i as int).flat_map(f),
        decreases files@.len() - i,
    {
        let ghost before = file_values(out@);
        proof {
            files@.lemma_flat_map_take_append(f, i as int);
            assert(before + seq![] =~= before);
        }
        if is_scanned_path(root, files[i].path.as_str(), config) {
            out.push(&files[i]);
            assert(file_values(out@) =~= before + seq![files@[i as int]]);
        }
        i += 1;
    }
    assert(files@.take(i as int) =~= files@);
    out
}

fn find_lines(files: &Vec<&SourceFile>, path: &str) -> (r: Option<Vec<String>>)
    ensures
        match r {
            Some(l) => lines_for(file_values(files@), path@) == Some(texts(l@)),
            None => lines_for(file_values(files@), path@) is None,
        },
{
    let ghost all = file_values(files@);
    let mut i: usize = 0;
    assert(all.skip(0) =~= all);
    while i < files.len()
        invariant
            i <= files@.len(),
            all == file_values(files@),
            lines_for(all, path@) == lines_for(all.skip(i as int), path@),
        decreases files@.len() - i,
    {
        assert(all.skip(i as int)[0] == *files@[i as int]);
        if is_same_path(files[i].path.as_str(), path) {
            return Some(lines_of(files[i].source.as_str()));
        }
        assert(all.skip(i as int).skip(1) =~= all.skip(i + 1));
        i += 1;
    }
    None
}

fn with_reason(i: &Issue, reason: Option<String>) -> (r: Issue)
    ensures
        r@ == (IssueView { reason: opt_text(reason), ..i@ }),
{
    Issue {
        file: i.file.clone(),
        line: i.line,
        severity: i.severity,
        rule: i.rule,
        message: i.message.clone(),
        package: i.package.clone(),
        reason,
    }
}

fn copy_reason(reason: &Option<String>) -> (r: Option<String>)
    ensures
        r == *reason,
{
    match reason {
        Some(t) => Some(t.clone()),
        None => None,
    }
}

/// Parts the findings into those that stay and those that markers suppress.
fn apply_markers(found: &Vec<Issue>, files: &Vec<&SourceFile>) -> (r: (Vec<Issue>, Vec<Issue>))
    ensures
        issue_views(r.0@) == issue_views(found@).flat_map(if_kept(file_values(files@))),
        issue_views(r.1@) == issue_views(found@).flat_map(if_ignored(file_values(files@))),
{
    let ghost all = issue_views(found@);
    let ghost f = if_kept(file_values(files@));
    let ghost g = if_ignored(file_values(files@));
    let mut kept = none();
    let mut ignored = none();
    let mut i: usize = 0;
    assert(issue_views(kept@) =~= all.take(0).flat_map(f));
    assert(issue_views(ignored@) =~= all.take(0).flat_map(g));
    while i < found.len()
        invariant
            i <= found@.len(),
            all == issue_views(found@),
            f == if_kept(file_values(files@)),
            g == if_ignored(file_values(files@)),
            issue_views(kept@) == all.take(i as int).flat_map(f),
            issue_views(ignored@) == all.take(i as int).flat_map(g),
        decreases found@.len() - i,
    {
        let x = &found[i];
        let ghost before = issue_views(kept@);
        let ghost waived = issue_views(ignored@);
        proof {
            all.lemma_flat_map_take_append(f, i as int);
            all.lemma_flat_map_take_append(g, i as int);
            assert(all[i as int] == x@);
            assert(before + seq![] =~= before);
            assert(waived + seq![] =~= waived);
        }
        let marker: Option<Suppression> = match find_lines(files, x.file.as_str()) {
            Some(l) => is_suppressed(x, &l),
            None => None,
        };
        match marker {
            Some(m) => push_issue(&mut ignored, with_reason(x, m.reason)),
            None => push_issue(&mut kept, with_reason(x, copy_reason(&x.reason))),
        }
        i += 1;
    }
    assert(all.take(i as int) =~= all);
    (kept, ignored)
}

fn copy_text(s: &String) -> (r: String)
    ensures
        r == *s,
{
    s.clone()
}

fn scan_file(file: &SourceFile, package: &str, root: &str) -> (r: (Vec<Issue>, Option<ParsedFile>))
    requires
        encode_utf8(file.source@).len() <= u32::MAX,
    ensures
        issue_views(r.0@) == each_report(package@, root@)(*file),
        if_parsed()(*file) == match r.1 {
            Some(tree) => seq![tree],
            None => seq![],
        },
{
    let tree = parse(file.source.as_str(), file.path.as_str());
    let found = report_file(&tree, file.source.as_str(), file.path.as_str(), package, root);
    match tree {
        Ok(module) => {
            let path = copy_text(&file.path);
            let source = copy_text(&file.source);
            (found, Some(ParsedFile { path, source, module }))
        },
        Err(_) => (found, None),
    }
}

fn scan_files(files: &Vec<&SourceFile>, package: &str, root: &str) -> (r: (
    Vec<Issue>,
    Vec<ParsedFile>,
))
    requires
        forall|k: int|
            0 <= k < files@.len() ==> encode_utf8((#[trigger] files@[k]).source@).len()
                <= u32::MAX,
    ensures
        issue_views(r.0@) == file_values(files@).flat_map(each_report(package@, root@)),
        r.1@ == file_values(files@).flat_map(if_parsed()),
{
    let ghost all = file_values(files@);
    let ghost f = each_report(package@, root@);
    let ghost g = if_parsed();
    let mut found = none();
    let mut trees: Vec<ParsedFile> = Vec::new();
    let mut i: usize = 0;
    assert(issue_views(found@) =~= all.take(0).flat_map(f));
    assert(trees@ =~= all.take(0).flat_map(g));
    while i < files.len()
        invariant
            i <= files@.len(),
            all == file_values(files@),
            f == each_report(package@, root@),
            g == if_parsed(),
            forall|k: int|
                0 <= k < files@.len() ==> encode_utf8((#[trigger] files@[k]).source@).len()
                    <= u32::MAX,
            issue_views(found@) == all.take(i as int).flat_map(f),
            trees@ == all.take(i as int).flat_map(g),
        decreases files@.len() - i,
    {
        let ghost before = trees@;
        proof {
            all.lemma_flat_map_take_append(f, i as int);
            all.lemma_flat_map_take_append(g, i as int);
            assert(all[i as int] == *files@[i as int]);
            assert(before + seq![] =~= before);
        }
        let (own, tree) = scan_file(files[i], package, root);
        append_issues(&mut found, own);
        if let Some(tree) = tree {
            trees.push(tree);
            assert(trees@ =~= before + seq![tree]);
        }
        i += 1;
    }
    assert(all.take(i as int) =~= all);
    (found, trees)
}

fn count_lines(files: &Vec<&SourceFile>) -> (r: usize)
    ensures
        r == capped(line_total(file_values(files@))),
{
    let ghost all = file_values(files@);
    let mut total: usize = 0;
    let mut i: usize = 0;
    while i < files.len()
        invariant
            i <= files@.len(),
            all == file_values(files@),
            total == capped(line_total(all.take(i as int))),
        decreases files@.len() - i,
    {
        proof {
            assert(all.take(i + 1).drop_last() =~= all.take(i as int));
            assert(all.take(i + 1).last() == *files@[i as int]);
        }
        let own = lines_of(files[i].source.as_str());
        assert(texts(own@).len() == own@.len());
        total = total.saturating_add(own.len());
        i += 1;
    }
    assert(all.take(i as int) =~= all);
    total
}

fn count_all_functions(trees: &Vec<ParsedFile>) -> (r: usize)
    ensures
        r == capped(function_total(trees@)),
{
    let mut total: usize = 0;
    let mut i: usize = 0;
    while i < trees.len()
        invariant
            i <= trees@.len(),
            total == capped(function_total(trees@.take(i as int))),
        decreases trees@.len() - i,
    {
        assert(trees@.take(i + 1).drop_last() =~= trees@.take(i as int));
        total = total.saturating_add(count_functions(&trees[i].module));
        i += 1;
    }
    assert(trees@.take(i as int) =~= trees@);
    total
}

/// Scans a package: `files` are the files below `root`, in the order in which they are
/// to be scanned; those that are not to be scanned are left out.
pub fn scan_package(
    package: &str,
    root: &str,
    files: &Vec<SourceFile>,
    config: &ScanConfig,
) -> (r: ScanResult)
    requires
        forall|i: int|
            0 <= i < files@.len() ==> encode_utf8((#[trigger] files@[i]).source@).len()
                <= u32::MAX,
    ensures
        r@ == scan_result(package@, root@, files@, config_view(*config)),
{
    let chosen = keep_scanned(files, root, config);
    proof {
        let all = file_values(chosen@);
        assert forall|i: int| 0 <= i < chosen@.len() implies encode_utf8(
            (#[trigger] chosen@[i]).source@,
        ).len() <= u32::MAX by {
            lemma_scanned_is_given(files@, root@, config_view(*config), i);
            assert(all[i] == *chosen@[i]);
        }
    }
    let (mut found, trees) = scan_files(&chosen, package, root);
    append_issues(&mut found, check_import_cycles_pkg(package, trees.as_slice(), root));
    append_issues(
        &mut found,
        check_duplicate_functions_pkg(package, trees.as_slice(), config.min_duplicate_lines),
    );
    append_issues(
        &mut found,
        check_sync_async_twins_pkg(package, trees.as_slice(), config.twin_similarity),
    );
    let (kept, ignored) = apply_markers(&found, &chosen);
    assert(issue_views(ignored@).len() == ignored@.len());
    let suppressed: usize = ignored.len();
    ScanResult {
        issues: kept,
        files_scanned: chosen.len(),
        functions_scanned: count_all_functions(&trees),
        total_lines: count_lines(&chosen),
        suppressed,
        ignored,
    }
}

proof fn lemma_scanned_is_given(files: Seq<SourceFile>, root: Seq<char>, config: ConfigView, i: int)
    requires
        0 <= i < scanned(files, root, config).len(),
    ensures
        files.contains(scanned(files, root, config)[i]),
    decreases files.len(),
{
    let f = if_scanned(root, config);
    if files.len() == 0 {
        assert(files.flat_map(f) =~= seq![]);
    } else {
        let rest = files.drop_last();
        rest.lemma_flat_map_push(f, files.last());
        assert(files =~= rest.push(files.last()));
        if i < rest.flat_map(f).len() {
            lemma_scanned_is_given(rest, root, config, i);
            let k = rest.index_of(scanned(rest, root, config)[i]);
            assert(files[k] == rest[k]);
        } else {
            assert(files[files.len() - 1] == files.last());
        }
    }
}

// ── Laws ────────────────────────────────────────────────────────────────────

proof fn lemma_markers_part(found: Seq<IssueView>, files: Seq<SourceFile>)
    ensures
        found.flat_map(if_kept(files)).len() + found.flat_map(if_ignored(files)).len()
            == found.len(),
    decreases found.len(),
{
    let f = if_kept(files);
    let g = if_ignored(files);
    if found.len() == 0 {
        assert(found.flat_map(f) =~= seq![]);
        assert(found.flat_map(g) =~= seq![]);
    } else {
        let rest = found.drop_last();
        lemma_markers_part(rest, files);
        rest.lemma_flat_map_push(f, found.last());
        rest.lemma_flat_map_push(g, found.last());
        assert(found =~= rest.push(found.last()));
    }
}

/// No finding is lost: each is either reported or kept with its marker's reason, and as
/// many are counted as suppressed as are kept that way.
pub proof fn law_findings_are_reported_or_ignored(
    package: Seq<char>,
    root: Seq<char>,
    files: Seq<SourceFile>,
    config: ConfigView,
)
    ensures
        ({
            let r = scan_result(package, root, files, config);
            let chosen = scanned(files, root, config);
            &&& r.issues.len() + r.ignored.len() == all_findings(
                package,
                root,
                chosen,
                config,
            ).len()
            &&& r.suppressed == r.ignored.len()
        }),
{
    let chosen = scanned(files, root, config);
    lemma_markers_part(all_findings(package, root, chosen, config), chosen);
}

proof fn lemma_findings_are_on(
    package: Seq<char>,
    root: Seq<char>,
    files: Seq<SourceFile>,
    config: ConfigView,
)
    ensures
        are_on(package, all_findings(package, root, files, config)),
{
    broadcast use lemma_both_on;

    let f = each_report(package, root);
    assert forall|file: SourceFile| are_on(package, #[trigger] f(file)) by {
        law_text_findings_are_on_the_package(file.source@, file.path@, package);
        if let Ok(module) = parsed(file.source@, file.path@) {
            law_file_findings_are_on_the_package(
                module,
                site_of(file.source@, file.path@, package),
                root,
            );
        }
    }
    lemma_each_on(package, files, f);
    law_package_findings_are_on_the_package(
        package,
        files.flat_map(if_parsed()),
        root,
        config.min_duplicate_lines,
        config.twin_similarity,
    );
}

/// A reported finding is one that no marker in its file suppresses. It is on the package
/// that was scanned and has no justification.
pub proof fn law_reported_findings_have_no_marker(
    package: Seq<char>,
    root: Seq<char>,
    files: Seq<SourceFile>,
    config: ConfigView,
    i: int,
)
    requires
        0 <= i < scan_result(package, root, files, config).issues.len(),
    ensures
        ({
            let x = scan_result(package, root, files, config).issues[i];
            &&& suppressor(scanned(files, root, config), x) is None
            &&& x.reason is None
            &&& x.package == package
        }),
{
    let chosen = scanned(files, root, config);
    let found = all_findings(package, root, chosen, config);
    let f = if_kept(chosen);
    let x = found.flat_map(f)[i];
    lemma_findings_are_on(package, root, chosen, config);
    lemma_flat_map_contains(found, f, x);
    assert(found.flat_map(f).contains(x));
    let k = choose|k: int| 0 <= k < found.len() && f(#[trigger] found[k]).contains(x);
    assert(x == found[k]);
}

/// An ignored finding is one that a marker in its file suppresses, and it carries the
/// reason of that marker. It is on the package that was scanned.
pub proof fn law_ignored_findings_carry_their_reason(
    package: Seq<char>,
    root: Seq<char>,
    files: Seq<SourceFile>,
    config: ConfigView,
    i: int,
)
    requires
        0 <= i < scan_result(package, root, files, config).ignored.len(),
    ensures
        ({
            let x = scan_result(package, root, files, config).ignored[i];
            &&& suppressor(scanned(files, root, config), x) matches Some(m) && x.reason == m.reason
            &&& x.package == package
        }),
{
    let chosen = scanned(files, root, config);
    let found = all_findings(package, root, chosen, config);
    let f = if_ignored(chosen);
    let x = found.flat_map(f)[i];
    lemma_findings_are_on(package, root, chosen, config);
    lemma_flat_map_contains(found, f, x);
    assert(found.flat_map(f).contains(x));
    let k = choose|k: int| 0 <= k < found.len() && f(#[trigger] found[k]).contains(x);
    lemma_reason_is_no_matter(chosen, found[k], x.reason);
}

/// A finding with another reason.
pub open spec fn with_other_reason(x: IssueView, reason: Option<Seq<char>>) -> IssueView {
    IssueView { reason, ..x }
}

proof fn lemma_reason_is_no_matter(
    files: Seq<SourceFile>,
    x: IssueView,
    reason: Option<Seq<char>>,
)
    ensures
        suppressor(files, with_other_reason(x, reason)) == suppressor(files, x),
{
}

/// Each finding goes to exactly one of the two lists: to the ignored ones, with its marker's
/// reason, where a marker suppresses it, and to the reported ones elsewhere.
pub proof fn law_each_finding_goes_to_one_list(
    package: Seq<char>,
    root: Seq<char>,
    files: Seq<SourceFile>,
    config: ConfigView,
    k: int,
)
    requires
        0 <= k < all_findings(package, root, scanned(files, root, config), config).len(),
    ensures
        ({
            let chosen = scanned(files, root, config);
            let x = all_findings(package, root, chosen, config)[k];
            let r = scan_result(package, root, files, config);
            match suppressor(chosen, x) {
                Some(m) => r.ignored.contains(with_other_reason(x, m.reason))
                    && !r.issues.contains(x),
                None => r.issues.contains(x) && forall|reason: Option<Seq<char>>|
                    !r.ignored.contains(#[trigger] with_other_reason(x, reason)),
            }
        }),
{
    let chosen = scanned(files, root, config);
    let found = all_findings(package, root, chosen, config);
    let x = found[k];
    let r = scan_result(package, root, files, config);
    match suppressor(chosen, x) {
        Some(m) => {
            let y = IssueView { reason: m.reason, ..x };
            lemma_flat_map_contains(found, if_ignored(chosen), y);
            assert(if_ignored(chosen)(found[k])[0] == y);
            assert(if_ignored(chosen)(found[k]).contains(y));
            if r.issues.contains(x) {
                let i = r.issues.index_of(x);
                law_reported_findings_have_no_marker(package, root, files, config, i);
            }
        },
        None => {
            lemma_flat_map_contains(found, if_kept(chosen), x);
            assert(if_kept(chosen)(found[k])[0] == x);
            assert(if_kept(chosen)(found[k]).contains(x));
            assert forall|reason: Option<Seq<char>>| !r.ignored.contains(
                #[trigger] with_other_reason(x, reason),
            ) by {
                let y = with_other_reason(x, reason);
                if r.ignored.contains(y) {
                    let i = r.ignored.index_of(y);
                    law_ignored_findings_carry_their_reason(package, root, files, config, i);
                    lemma_reason_is_no_matter(chosen, x, reason);
                }
            }
        },
    }
}

/// Scanning nothing finds nothing.
pub proof fn law_empty_scan_is_empty(
    package: Seq<char>,
    root: Seq<char>,
    files: Seq<SourceFile>,
    config: ConfigView,
)
    requires
        scanned(files, root, config).len() == 0,
    ensures
        scan_result(package, root, files, config) == empty_result(),
{
    let chosen = scanned(files, root, config);
    let trees = chosen.flat_map(if_parsed());
    assert(chosen =~= seq![]);
    assert(trees =~= seq![]);
    assert(chosen.flat_map(each_report(package, root)) =~= seq![]);
    assert(import_cycles(package, trees, root) =~= seq![]) by {
        if let Some(prefix) = own_prefix(package) {
            assert(import_graph(trees, root, without_dots(prefix)) =~= seq![]);
            law_no_edges_no_cycles();
        }
    }
    assert(duplicate_functions(package, trees, config.min_duplicate_lines) =~= seq![]) by {
        let all = bodies(trees, config.min_duplicate_lines);
        assert(all =~= seq![]);
        assert(keys(all) =~= seq![]);
        assert(keys(all).flat_map(duplicate_issue(package, all)) =~= seq![]);
    }
    assert(sync_async_twins(package, trees, config.twin_similarity) =~= seq![]) by {
        let ms = all_members(trees);
        assert(ms =~= seq![]);
        assert(pairs(trees, ms) =~= seq![]);
    }
    let found = all_findings(package, root, chosen, config);
    assert(found =~= seq![]);
    assert(found.flat_map(if_kept(chosen)) =~= seq![]);
    assert(found.flat_map(if_ignored(chosen)) =~= seq![]);
}

// ── What a scan takes in ────────────────────────────────────────────────────

/// A file is scanned where its name ends in `.py`, neither `__pycache__` nor an excluded text
/// stands anywhere in its path, and, where subdirectories are left out, it lies in the root.
pub proof fn law_scanned_files(
    files: Seq<SourceFile>,
    root: Seq<char>,
    config: ConfigView,
    f: SourceFile,
)
    ensures
        scanned(files, root, config).contains(f) <==> files.contains(f) && is_python_path(f.path@)
            && (forall|from: int|
            0 <= from <= f.path@.len() ==> !"__pycache__"@.is_prefix_of(#[trigger] f.path@.skip(from)))
            && (forall|k: int, from: int|
            0 <= k < config.exclude.len() && 0 <= from <= f.path@.len() ==> !(
            #[trigger] config.exclude[k]).is_prefix_of(#[trigger] f.path@.skip(from))) && (
        config.recursive || components(f.path@).len() <= components(root).len() + 1),
{
    let g = if_scanned(root, config);
    let path = f.path@;
    lemma_flat_map_contains(files, g, f);
    law_occurrences_start_somewhere("__pycache__"@, path);
    assert forall|k: int| 0 <= k < config.exclude.len() implies (occurs(
        #[trigger] config.exclude[k],
        path,
    ) <==> exists|from: int|
        0 <= from <= path.len() && config.exclude[k].is_prefix_of(#[trigger] path.skip(from))) by {
        law_occurrences_start_somewhere(config.exclude[k], path);
    }
    if scanned(files, root, config).contains(f) {
        let i = choose|i: int| 0 <= i < files.len() && g(#[trigger] files[i]).contains(f);
        assert(files[i] == f);
    }
    if files.contains(f) && is_scanned(root, path, config) {
        let i = files.index_of(f);
        assert(g(files[i])[0] == f);
        assert(g(files[i]).contains(f));
    }
}

/// A file that does not parse has one finding on that: an error at its first line with the
/// parser's words.
pub proof fn law_broken_files_are_reported(
    words: Seq<char>,
    source: Seq<char>,
    path: Seq<char>,
    package: Seq<char>,
    root: Seq<char>,
)
    ensures
        ({
            let r = file_report(Err(words), source, path, package, root);
            let x = r.last();
            &&& r.len() > 0
            &&& x.file == path && x.line == 1 && x.package == package
            &&& x.severity == Severity::Error && x.rule == "syntax-error"@
            &&& x.message == "Failed to parse file — syntax error: "@ + words
            &&& r.drop_last() == long_file(source, path, package) + todo_markers(
                source,
                path,
                package,
            )
        }),
{
    let r = file_report(Err(words), source, path, package, root);
    assert(r.drop_last() =~= long_file(source, path, package) + todo_markers(
        source,
        path,
        package,
    ));
}

/// Every check is made: what is found is what one of the checks on a file finds, or one of the
/// checks on the parsed files of the package together.
pub proof fn law_all_checks_are_made(
    package: Seq<char>,
    root: Seq<char>,
    files: Seq<SourceFile>,
    config: ConfigView,
    x: IssueView,
)
    ensures
        all_findings(package, root, files, config).contains(x) <==> is_found_in_a_file(
            package,
            root,
            files,
            x,
        ) || import_cycles(package, files.flat_map(if_parsed()), root).contains(x)
            || duplicate_functions(
            package,
            files.flat_map(if_parsed()),
            config.min_duplicate_lines,
        ).contains(x) || sync_async_twins(
            package,
            files.flat_map(if_parsed()),
            config.twin_similarity,
        ).contains(x),
{
    let trees = files.flat_map(if_parsed());
    let a = files.flat_map(each_report(package, root));
    let b = import_cycles(package, trees, root);
    let c = duplicate_functions(package, trees, config.min_duplicate_lines);
    let d = sync_async_twins(package, trees, config.twin_similarity);
    vstd::seq_lib::lemma_seq_concat_contains_all_elements(a, b, x);
    vstd::seq_lib::lemma_seq_concat_contains_all_elements(a + b, c, x);
    vstd::seq_lib::lemma_seq_concat_contains_all_elements(a + b + c, d, x);
    let g = each_report(package, root);
    lemma_flat_map_contains(files, g, x);
    if a.contains(x) {
        let i = choose|i: int| 0 <= i < files.len() && g(#[trigger] files[i]).contains(x);
        lemma_file_report(files[i], package, root, x);
    }
    if is_found_in_a_file(package, root, files, x) {
        let i = choose|i: int|
            0 <= i < files.len() && is_found_alone(#[trigger] files[i], package, root, x);
        lemma_file_report(files[i], package, root, x);
        assert(g(files[i]).contains(x));
    }
}

/// Whether one of the checks on a file alone finds it.
pub open spec fn is_found_alone(
    f: SourceFile,
    package: Seq<char>,
    root: Seq<char>,
    x: IssueView,
) -> bool {
    ||| long_file(f.source@, f.path@, package).contains(x)
    ||| todo_markers(f.source@, f.path@, package).contains(x)
    ||| parsed(f.source@, f.path@) matches Ok(module) && (file_findings(
        module,
        site_of(f.source@, f.path@, package),
    ).contains(x) || placed_findings(
        module,
        site_of(f.source@, f.path@, package),
        root,
    ).contains(x))
    ||| parsed(f.source@, f.path@) matches Err(words) && x == finding(
        f.path@,
        1,
        Severity::Error,
        "syntax-error"@,
        package,
        "Failed to parse file — syntax error: "@ + words,
    )
}

/// Whether one of the checks on a file alone finds it in one of the files.
pub open spec fn is_found_in_a_file(
    package: Seq<char>,
    root: Seq<char>,
    files: Seq<SourceFile>,
    x: IssueView,
) -> bool {
    exists|i: int| 0 <= i < files.len() && is_found_alone(#[trigger] files[i], package, root, x)
}

proof fn lemma_file_report(f: SourceFile, package: Seq<char>, root: Seq<char>, x: IssueView)
    ensures
        each_report(package, root)(f).contains(x) <==> is_found_alone(f, package, root, x),
{
    let a = long_file(f.source@, f.path@, package);
    let b = todo_markers(f.source@, f.path@, package);
    vstd::seq_lib::lemma_seq_concat_contains_all_elements(a, b, x);
    match parsed(f.source@, f.path@) {
        Ok(module) => {
            let site = site_of(f.source@, f.path@, package);
            let c = file_findings(module, site);
            let d = placed_findings(module, site, root);
            vstd::seq_lib::lemma_seq_concat_contains_all_elements(c, d, x);
            vstd::seq_lib::lemma_seq_concat_contains_all_elements(a + b, c + d, x);
        },
        Err(words) => {
            let y = finding(
                f.path@,
                1,
                Severity::Error,
                "syntax-error"@,
                package,
                "Failed to parse file — syntax error: "@ + words,
            );
            vstd::seq_lib::lemma_seq_concat_contains_all_elements(a + b, seq![y], x);
            assert(seq![y].contains(x) <==> x == y) by {
                assert(seq![y][0] == y);
            }
        },
    }
}

/// The markers that count for a finding are those in the first file with its path; a finding on
/// a file that is not there has none.
pub proof fn law_markers_are_read_from_the_file(files: Seq<SourceFile>, i: int, x: IssueView)
    requires
        0 <= i < files.len(),
        same_path(files[i].path@, x.file),
        forall|k: int| 0 <= k < i ==> !same_path((#[trigger] files[k]).path@, x.file),
    ensures
        suppressor(files, x) == suppressing(x, lines(files[i].source@)),
    decreases files.len(),
{
    lemma_lines_for(files, i, x.file);
}

proof fn lemma_lines_for(files: Seq<SourceFile>, i: int, path: Seq<char>)
    requires
        0 <= i < files.len(),
        same_path(files[i].path@, path),
        forall|k: int| 0 <= k < i ==> !same_path((#[trigger] files[k]).path@, path),
    ensures
        lines_for(files, path) == Some(lines(files[i].source@)),
    decreases files.len(),
{
    if i > 0 {
        let rest = files.skip(1);
        assert(!same_path(files[0].path@, path));
        assert(rest[i - 1] == files[i]);
        assert forall|k: int| 0 <= k < i - 1 implies !same_path(
            (#[trigger] rest[k]).path@,
            path,
        ) by {
            assert(rest[k] == files[k + 1]);
        }
        lemma_lines_for(rest, i - 1, path);
    }
}

/// A scan tells how many files, functions and lines it looked at.
pub proof fn law_scans_are_counted(
    package: Seq<char>,
    root: Seq<char>,
    all: Seq<SourceFile>,
    f: SourceFile,
    config: ConfigView,
)
    requires
        is_scanned(root, f.path@, config),
        line_total(scanned(all.push(f), root, config)) <= usize::MAX,
        function_total(scanned(all.push(f), root, config).flat_map(if_parsed())) <= usize::MAX,
    ensures
        ({
            let before = scan_result(package, root, all, config);
            let after = scan_result(package, root, all.push(f), config);
            &&& after.files_scanned == before.files_scanned + 1
            &&& after.total_lines == before.total_lines + lines(f.source@).len()
            &&& after.functions_scanned == before.functions_scanned + (match parsed(
                f.source@,
                f.path@,
            ) {
                Ok(module) => functions(body_of(module)).len(),
                Err(_) => 0,
            })
        }),
{
    let g = if_scanned(root, config);
    let h = if_parsed();
    all.lemma_flat_map_push(g, f);
    let old_files = scanned(all, root, config);
    let new_files = scanned(all.push(f), root, config);
    assert(new_files =~= old_files.push(f));
    assert(new_files.drop_last() =~= old_files);
    old_files.lemma_flat_map_push(h, f);
    let trees = old_files.flat_map(h);
    match parsed(f.source@, f.path@) {
        Ok(module) => {
            let p = ParsedFile { path: f.path, source: f.source, module };
            assert(new_files.flat_map(h) =~= trees.push(p));
            assert(trees.push(p).drop_last() =~= trees);
        },
        Err(_) => {
            assert(new_files.flat_map(h) =~= trees);
        },
    }
}

} // verus!
