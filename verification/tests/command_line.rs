//! What the command line decides.

use spaghetti::cli::{
    combine_results, default_cwd_excludes, discover_cwd_packages, exit_code, filter_by_severity,
    is_bare, is_noise_dir, load_packages_from_config, missing_message, output_kind,
    package_config, parse_package_args, plan_bare_run, plan_explicit_run, register_configured,
    render_text_report, resolve_packages, scan_order, select_packages, severity_rank, ConfigError,
    DirEntry, Output, PackagePath,
};
use spaghetti::models::{Issue, Ratio, ScanResult, Severity};
use spaghetti::registry::find_path;

fn pairs(v: &[(&str, &str)]) -> Vec<(String, String)> {
    v.iter().map(|(a, b)| (a.to_string(), b.to_string())).collect()
}

fn texts(v: &[&str]) -> Vec<String> {
    v.iter().map(|t| t.to_string()).collect()
}

fn dir(cwd: &str, name: &str, has_python: bool) -> DirEntry {
    DirEntry {
        name: name.to_string(),
        path: format!("{cwd}/{name}"),
        is_dir: true,
        has_python,
    }
}

fn plain(cwd: &str, name: &str) -> DirEntry {
    DirEntry {
        name: name.to_string(),
        path: format!("{cwd}/{name}"),
        is_dir: false,
        has_python: false,
    }
}

#[test]
fn finds_subdirectories_with_python() {
    let entries = vec![dir("/w", "alpha", true), dir("/w", "beta", true)];
    let (packages, loose_root_name) = discover_cwd_packages(&entries, "/w", "/w");
    assert_eq!(packages.len(), 2);
    assert_eq!(find_path(&packages, "alpha"), Some("/w/alpha"));
    assert_eq!(find_path(&packages, "beta"), Some("/w/beta"));
    assert!(loose_root_name.is_none());
}

#[test]
fn skips_dirs_with_no_python() {
    let entries = vec![dir("/w", "docs", false), dir("/w", "alpha", true)];
    let (packages, _) = discover_cwd_packages(&entries, "/w", "/w");
    assert_eq!(packages.len(), 1);
    assert!(find_path(&packages, "alpha").is_some());
}

#[test]
fn skips_noise_directories() {
    let mut entries = vec![];
    for noisy in [
        ".venv",
        "__pycache__",
        "node_modules",
        ".git",
        "build",
        "dist",
        "foo.egg-info",
    ] {
        assert!(is_noise_dir(noisy));
        entries.push(dir("/w", noisy, true));
    }
    entries.push(dir("/w", "alpha", true));
    let (packages, _) = discover_cwd_packages(&entries, "/w", "/w");
    assert_eq!(packages.len(), 1);
    assert!(find_path(&packages, "alpha").is_some());
    assert!(is_noise_dir("site-packages"));
    assert!(!is_noise_dir("builds"));
}

#[test]
fn bundles_loose_root_files() {
    let entries = vec![plain("/x/work", "main.py"), dir("/x/work", "alpha", true)];
    let (packages, loose_root_name) = discover_cwd_packages(&entries, "/x/work", "/real/work");
    assert_eq!(loose_root_name, Some("work".to_string()));
    assert_eq!(packages.len(), 2);
    assert_eq!(find_path(&packages, "work"), Some("/x/work"));
}

#[test]
fn loose_files_are_told_apart_from_a_subdirectory() {
    let entries = vec![plain("/x/work", "main.py"), dir("/x/work", "work", true)];
    let (packages, loose_root_name) = discover_cwd_packages(&entries, "/x/work", "/x/work");
    assert_eq!(loose_root_name, Some("work (root)".to_string()));
    assert_eq!(packages, pairs(&[("work", "/x/work/work"), ("work (root)", "/x/work")]));
    let (packages, name) = discover_cwd_packages(&vec![plain("", "a.py")], "/", "/");
    assert_eq!(name, Some("/".to_string()));
    assert_eq!(packages, pairs(&[("/", "/")]));
}

#[test]
fn empty_cwd_returns_empty_registry() {
    let (packages, loose_root_name) = discover_cwd_packages(&vec![], "/w", "/w");
    assert!(packages.is_empty());
    assert!(loose_root_name.is_none());
}

#[test]
fn does_not_special_case_boti_names() {
    let entries = vec![dir("/w", "boti", true)];
    let (packages, _) = discover_cwd_packages(&entries, "/w", "/w");
    assert_eq!(packages.len(), 1);
    assert!(find_path(&packages, "boti").is_some());
}

#[test]
fn bare_invocation_empty_cwd_errors() {
    assert_eq!(
        select_packages(&vec![], &None),
        Err("error: no packages to scan — the resolved package registry is empty".to_string())
    );
}

#[test]
fn bare_invocation_discovers_cwd_and_never_scans_boti() {
    assert!(is_bare(false, &vec![]));
    assert!(!is_bare(true, &vec![]));
    assert!(!is_bare(false, &texts(&["a=b"])));
    let entries = vec![plain("/tmp/run", "loose.py"), dir("/tmp/run", "mylib", true)];
    let plan = plan_bare_run(&entries, "/tmp/run", "/tmp/run", texts(&["gen"]));
    assert_eq!(plan.registry, pairs(&[("mylib", "/tmp/run/mylib"), ("run", "/tmp/run")]));
    assert_eq!(plan.loose_root, Some("run".to_string()));
    assert_eq!(plan.exclude.len(), 14);
    assert_eq!((plan.exclude[0].as_str(), plan.exclude[1].as_str()), ("gen", "/.venv/"));
    let selected = select_packages(&plan.registry, &None).unwrap();
    assert_eq!(selected, ["mylib", "run"]);
    assert!(!selected.iter().any(|name| name.starts_with("boti")));
    let ratio = Ratio { numerator: 1, denominator: 2 };
    let own = package_config(&plan, "mylib", 7, ratio);
    let loose = package_config(&plan, "run", 7, ratio);
    assert!(own.recursive && !loose.recursive);
    assert_eq!((own.min_duplicate_lines, own.twin_similarity), (7, ratio));
    assert_eq!(own.exclude, plan.exclude);
}

#[test]
fn explicit_runs_leave_out_what_they_are_told_to() {
    let plan = plan_explicit_run(
        None,
        &texts(&["c=c"]),
        pairs(&[("d", "/d")]),
        "/cwd",
        texts(&["gen"]),
    )
    .ok()
    .unwrap();
    assert_eq!(plan.registry, pairs(&[("c", "/cwd/c"), ("d", "/d")]));
    assert_eq!((plan.loose_root, plan.exclude), (None, texts(&["gen"])));
    let bad = plan_explicit_run(None, &texts(&["c"]), vec![], "/cwd", vec![]);
    assert_eq!(bad.err(), Some("c".to_string()));
}

#[test]
fn plans_come_before_json() {
    assert_eq!(output_kind(true, true), Output::Plan);
    assert_eq!(output_kind(false, true), Output::Json);
    assert_eq!(output_kind(false, false), Output::Text);
}

#[test]
fn errors_on_nonexistent_package_path() {
    let here = PackagePath { name: "a".to_string(), path: "/w/a".to_string(), exists: true };
    let gone = PackagePath {
        name: "fake_pkg".to_string(),
        path: "/w/does-not-exist-on-disk".to_string(),
        exists: false,
    };
    assert_eq!(
        missing_message(&vec![here, gone]),
        Some(
            "error: package path(s) do not exist: fake_pkg=/w/does-not-exist-on-disk".to_string()
        )
    );
    assert_eq!(missing_message(&vec![]), None);
    let gone = || PackagePath {
        name: "a".to_string(),
        path: "/gone".to_string(),
        exists: false,
    };
    assert_eq!(
        missing_message(&vec![gone(), gone()]),
        Some("error: package path(s) do not exist: a=/gone, a=/gone".to_string())
    );
}

#[test]
fn entries_name_packages() {
    assert_eq!(
        parse_package_args(&texts(&[" b = src=x ", "a=/abs", "b=later"]), "/cwd"),
        Ok(pairs(&[("a", "/abs"), ("b", "/cwd/later")]))
    );
    assert_eq!(
        parse_package_args(&texts(&[" b = src=x "]), "/cwd"),
        Ok(pairs(&[("b", "/cwd/src=x")]))
    );
    assert_eq!(
        parse_package_args(&texts(&["a=b", "bad", "worse"]), "/cwd"),
        Err("bad".to_string())
    );
}

#[test]
fn a_configuration_file_names_packages() {
    let text = "packages:\n  b: src/b\n  a: /abs/a\n  c: 3\n";
    assert_eq!(
        load_packages_from_config(text, "/conf").unwrap(),
        pairs(&[("a", "/abs/a"), ("b", "/conf/src/b"), ("c", "/conf/")])
    );
    assert!(matches!(
        load_packages_from_config("other: 1\n", "/conf"),
        Err(ConfigError::NoPackages)
    ));
    assert!(matches!(
        load_packages_from_config("packages: [a]\n", "/conf"),
        Err(ConfigError::NoPackages)
    ));
    match load_packages_from_config("a: [", "/conf") {
        Err(ConfigError::Malformed(e)) => assert!(!e.is_empty() && e != "a: ["),
        _ => panic!("the text is no YAML"),
    }
}

#[test]
fn what_is_no_string_counts_as_empty() {
    let found = vec![(None, Some("x".to_string())), (Some("a".to_string()), None)];
    assert_eq!(
        register_configured(Ok(Some(found)), "/c").unwrap(),
        pairs(&[("", "/c/x"), ("a", "/c/")])
    );
    assert!(matches!(
        register_configured(Err("e".to_string()), "/c"),
        Err(ConfigError::Malformed(_))
    ));
}

#[test]
fn entries_win_over_the_configuration_file() {
    let defaults = pairs(&[("d", "/d")]);
    let none = resolve_packages(None, &vec![], defaults.clone(), "/cwd");
    assert_eq!(none, Ok(defaults.clone()));
    let config = pairs(&[("a", "/a"), ("b", "/b")]);
    let only = resolve_packages(Some(config.clone()), &vec![], defaults.clone(), "/cwd");
    assert_eq!(only, Ok(config.clone()));
    let both =
        resolve_packages(Some(config), &texts(&["b=other", "c=c"]), defaults.clone(), "/cwd");
    assert_eq!(both, Ok(pairs(&[("a", "/a"), ("b", "/cwd/other"), ("c", "/cwd/c")])));
    let args = resolve_packages(None, &texts(&["c=c"]), defaults.clone(), "/cwd");
    assert_eq!(args, Ok(pairs(&[("c", "/cwd/c"), ("d", "/d")])));
    let over = resolve_packages(None, &texts(&["d=other"]), defaults.clone(), "/cwd");
    assert_eq!(over, Ok(pairs(&[("d", "/cwd/other")])));
    assert_eq!(
        resolve_packages(None, &texts(&["c"]), defaults, "/cwd"),
        Err("c".to_string())
    );
}

#[test]
fn packages_are_selected() {
    let registry = pairs(&[("a", "/a"), ("b", "/b")]);
    assert_eq!(select_packages(&registry, &None), Ok(texts(&["a", "b"])));
    assert_eq!(
        select_packages(&registry, &Some(texts(&["b", "a", "b"]))),
        Ok(texts(&["b", "a", "b"]))
    );
    assert_eq!(scan_order(&texts(&["b", "a", "b"])), texts(&["b", "a"]));
    assert_eq!(
        select_packages(&registry, &Some(texts(&["x", "a", "y", "x"]))),
        Err("error: unknown package(s): x, y, x. Available: a, b".to_string())
    );
    assert_eq!(select_packages(&registry, &Some(vec![])), Ok(vec![]));
}

#[test]
fn discovery_leaves_out_caches() {
    let excludes = default_cwd_excludes();
    assert_eq!(excludes.len(), 13);
    assert_eq!(excludes[0], "/.venv/");
    assert_eq!(excludes[7], ".egg-info");
    assert_eq!(excludes[12], "/site-packages/");
}

fn issue(file: &str, line: usize, severity: Severity, message: &str) -> Issue {
    Issue {
        file: file.to_string(),
        line,
        severity,
        rule: "some-rule",
        message: message.to_string(),
        package: "p".to_string(),
        reason: None,
    }
}

fn result_with(issues: Vec<Issue>) -> ScanResult {
    ScanResult { issues, ..Default::default() }
}

#[test]
fn severities_filter_findings() {
    let all = vec![
        issue("a", 1, Severity::Info, "i"),
        issue("a", 2, Severity::Error, "e"),
        issue("a", 3, Severity::Warning, "w"),
    ];
    let kept = |severity: &str| {
        filter_by_severity(&all, severity).iter().map(|i| i.line).collect::<Vec<_>>()
    };
    assert_eq!(kept("info"), [1, 2, 3]);
    assert_eq!(kept("warning"), [2, 3]);
    assert_eq!(kept("error"), [2]);
    assert_eq!(
        ["info", "warning", "error", "other"].map(|s| severity_rank(s)),
        [0, 1, 2, 2]
    );
}

#[test]
fn exit_codes_follow_the_worst_finding() {
    assert_eq!(exit_code(&result_with(vec![])), 0);
    assert_eq!(exit_code(&result_with(vec![issue("a", 1, Severity::Info, "")])), 0);
    assert_eq!(
        exit_code(&result_with(vec![
            issue("a", 1, Severity::Warning, ""),
            issue("a", 1, Severity::Info, "")
        ])),
        1
    );
    assert_eq!(
        exit_code(&result_with(vec![
            issue("a", 1, Severity::Error, ""),
            issue("a", 1, Severity::Warning, "")
        ])),
        2
    );
}

#[test]
fn results_are_combined() {
    let mut a = result_with(vec![issue("a", 1, Severity::Info, "x")]);
    a.files_scanned = 2;
    a.total_lines = 10;
    let mut b = result_with(vec![issue("b", 2, Severity::Error, "y")]);
    b.functions_scanned = 3;
    b.suppressed = 1;
    b.ignored.push(issue("b", 9, Severity::Info, "z"));
    let total = combine_results(vec![a, b]).unwrap();
    assert_eq!(total.issues.iter().map(|i| i.line).collect::<Vec<_>>(), [1, 2]);
    assert_eq!(
        (total.files_scanned, total.functions_scanned, total.total_lines, total.suppressed),
        (2, 3, 10, 1)
    );
    assert_eq!(total.ignored.len(), 1);
    let huge = || ScanResult { total_lines: usize::MAX, ..Default::default() };
    assert!(combine_results(vec![huge(), ScanResult::default()]).is_some());
    let one = ScanResult { total_lines: 1, ..Default::default() };
    assert!(combine_results(vec![huge(), one]).is_none());
}

#[test]
fn reports_are_rendered() {
    let mut total = result_with(vec![
        issue("/w/b.py", 12, Severity::Warning, "a warning"),
        issue("/w/a.py", 123456, Severity::Info, "a note"),
    ]);
    total.files_scanned = 2;
    total.total_lines = 30;
    total.functions_scanned = 4;
    total.suppressed = 3;
    let mut with_reason = issue("/w/z.py", 7, Severity::Error, "");
    with_reason.reason = Some("known".to_string());
    total.ignored = vec![
        with_reason,
        issue("/w/a.py", 9, Severity::Warning, ""),
        issue("/w/a.py", 2, Severity::Info, ""),
    ];
    let filtered = filter_by_severity(&total.issues, "warning");
    let bar = "=".repeat(72);
    let expected = format!(
        "{bar}
  SPAGHETTI CODE DETECTION REPORT
{bar}

  Files scanned:     2
  Lines scanned:     30
  Functions scanned: 4
  Total issues:      1
    Errors:          0
    Warnings:        1
    Info:            0
  Suppressed:        3 (inline spaghetti-ignore markers)

  Overall score: 40.0 (D)

{bar}
  SPAGHETTI-IGNORED (inline spaghetti-ignore markers)
{bar}

  ℹ a.py:2 [some-rule] no reason given
  ⚠ a.py:9 [some-rule] no reason given
  ✖ z.py:7 [some-rule] known

  b.py L12    [some-rule] a warning
"
    );
    assert_eq!(render_text_report(&filtered, &total, "40.0", "D", Some("/w")), expected);
    let all = filter_by_severity(&total.issues, "info");
    let report = render_text_report(&all, &total, "40.0", "D", None);
    assert!(report.ends_with(
        "\n  /w/b.py L12    [some-rule] a warning\n  /w/a.py L123456 [some-rule] a note\n"
    ));
}

#[test]
fn clean_reports_are_short() {
    let total = ScanResult::default();
    let report = render_text_report(&vec![], &total, "100.0", "A", None);
    assert!(report.ends_with(
        "    Info:            0\n\n  Overall score: 100.0 (A)\n\n"
    ));
    assert!(!report.contains("Suppressed"));
}
