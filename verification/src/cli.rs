//! What the command line decides: which packages are scanned, what is reported and how,
//! and with which exit code.

use crate::config::registry_views;
use crate::models::{
    combined, count_of, count_selected, countable, display_path, empty_result, issue_views,
    law_counted_severities_occur, opt_str, opt_text, ref_views, shown_path, Issue, IssueView, Ratio, ResultView, ScanConfig,
    ScanResult, Severity,
};
use crate::order::{lemma_flat_map_contains, sort_by, sorted};
use crate::paths::{
    components, file_name, file_name_of, is_python_file, is_python_path, join_path, joined_path,
};
use crate::registry::{
    find_path, is_registry, law_later_packages_win, law_registered_packages_are_found,
    law_registries_stay_in_order, list_names, names_in, path_in, register, register_all,
    registered, registered_all,
};
use crate::scanner::{config_view, is_scanned, ConfigView};
use crate::scoring::{heading, icon, make_heading, severity_icon};
use crate::text::{
    add_text, at_left, count_text, dec, distinct_texts, ends_with, join, joined, left_aligned, same,
    text_at_most, text_le, texts, trim, trimmed,
};
use vstd::prelude::*;
use vstd::string::*;

verus! {

// ── Severities ──────────────────────────────────────────────────────────────

/// How severe a word says that a finding is.
pub open spec fn rank(word: Seq<char>) -> nat {
    if word == "info"@ {
        0
    } else if word == "warning"@ {
        1
    } else {
        2
    }
}

/// How severe a word says that a finding is.
pub fn severity_rank(s: &str) -> (r: u8)
    ensures
        r == rank(s@),
{
    if same(s, "info") {
        0
    } else if same(s, "warning") {
        1
    } else {
        2
    }
}

/// The finding, if it is at least as severe as `min`.
pub open spec fn if_severe(min: nat) -> spec_fn(IssueView) -> Seq<IssueView> {
    |i: IssueView|
        if rank(i.severity.word()) >= min {
            seq![i]
        } else {
            seq![]
        }
}

/// The findings that are at least as severe as a word says.
pub fn filter_by_severity<'a>(issues: &'a Vec<Issue>, severity: &str) -> (r: Vec<&'a Issue>)
    ensures
        ref_views(r@) == issue_views(issues@).flat_map(if_severe(rank(severity@))),
{
    let min: u8 = severity_rank(severity);
    let ghost all = issue_views(issues@);
    let ghost f = if_severe(rank(severity@));
    let mut out: Vec<&'a Issue> = Vec::new();
    let mut i: usize = 0;
    assert(ref_views(out@) =~= all.take(0).flat_map(f));
    while i < issues.len()
        invariant
            i <= issues@.len(),
            min == rank(severity@),
            all == issue_views(issues@),
            f == if_severe(rank(severity@)),
            ref_views(out@) == all.take(i as int).flat_map(f),
        decreases issues@.len() - i,
    {
        let x = &issues[i];
        let ghost before = ref_views(out@);
        proof {
            all.lemma_flat_map_take_append(f, i as int);
            assert(all[i as int] == x@);
            assert(before + seq![] =~= before);
        }
        if severity_rank(x.severity.as_str()) >= min {
            out.push(x);
            assert(ref_views(out@) =~= before + seq![x@]);
        }
        i += 1;
    }
    assert(all.take(i as int) =~= all);
    out
}

/// The exit code for findings: 2 where one is an error, 1 where one is a warning.
pub open spec fn code_for(issues: Seq<IssueView>) -> int {
    if count_of(issues, Severity::Error) > 0 {
        2
    } else if count_of(issues, Severity::Warning) > 0 {
        1
    } else {
        0
    }
}

/// The exit code for the findings of a scan.
pub fn exit_code(total: &ScanResult) -> (r: i32)
    ensures
        r == code_for(total@.issues),
{
    if total.error_count() > 0 {
        2
    } else if total.warning_count() > 0 {
        1
    } else {
        0
    }
}

// ── Packages on the command line ────────────────────────────────────────────

/// The first place of a character; the length where it does not occur.
pub open spec fn first_place(s: Seq<char>, c: char) -> nat
    decreases s.len(),
{
    if s.len() == 0 || s[0] == c {
        0
    } else {
        1 + first_place(s.skip(1), c)
    }
}

fn find_first(s: &str, c: char) -> (r: usize)
    ensures
        r == first_place(s@, c),
        r <= s@.len(),
{
    let n: usize = s.unicode_len();
    let mut i: usize = 0;
    assert(s@.skip(0) =~= s@);
    while i < n && s.get_char(i) != c
        invariant
            i <= n == s@.len(),
            first_place(s@, c) == i + first_place(s@.skip(i as int), c),
        decreases n - i,
    {
        assert(s@.skip(i as int)[0] == s@[i as int]);
        assert(s@.skip(i as int).skip(1) =~= s@.skip(i + 1));
        i += 1;
    }
    proof {
        if i < n {
            assert(s@.skip(i as int)[0] == s@[i as int]);
        } else {
            assert(s@.skip(i as int).len() == 0);
        }
    }
    i
}

/// The package that an entry `NAME=PATH` names, as seen from `cwd`.
pub open spec fn named_package(entry: Seq<char>, cwd: Seq<char>) -> Option<
    (Seq<char>, Seq<char>),
> {
    let at = first_place(entry, '=') as int;
    if at < entry.len() {
        Some((trim(entry.take(at)), join_path(cwd, trim(entry.skip(at + 1)))))
    } else {
        None
    }
}

/// The packages that entries name; the first entry without `=` where there is one.
pub open spec fn named_packages(entries: Seq<Seq<char>>, cwd: Seq<char>) -> Result<
    Seq<(Seq<char>, Seq<char>)>,
    Seq<char>,
>
    decreases entries.len(),
{
    if entries.len() == 0 {
        Ok(seq![])
    } else {
        match named_packages(entries.drop_last(), cwd) {
            Ok(s) => match named_package(entries.last(), cwd) {
                Some(p) => Ok(registered(s, p.0, p.1)),
                None => Err(entries.last()),
            },
            Err(bad) => Err(bad),
        }
    }
}

/// A registry or what is wrong with its entries.
pub open spec fn registry_outcome(r: Result<Vec<(String, String)>, String>) -> Result<
    Seq<(Seq<char>, Seq<char>)>,
    Seq<char>,
> {
    match r {
        Ok(v) => Ok(registry_views(v@)),
        Err(bad) => Err(bad@),
    }
}

fn parse_entry(entry: &str, cwd: &str) -> (r: Option<(String, String)>)
    ensures
        match r {
            Some(p) => named_package(entry@, cwd@) == Some((p.0@, p.1@)),
            None => named_package(entry@, cwd@) is None,
        },
{
    let at: usize = find_first(entry, '=');
    let n: usize = entry.unicode_len();
    if at == n {
        return None;
    }
    proof {
        assert(entry@.subrange(0, at as int) =~= entry@.take(at as int));
        assert(entry@.subrange(at + 1, n as int) =~= entry@.skip(at + 1));
    }
    let name = trimmed(entry.substring_char(0, at));
    let path = trimmed(entry.substring_char(at + 1, n));
    Some((name, joined_path(cwd, path.as_str())))
}

proof fn lemma_bad_entry(entries: Seq<Seq<char>>, cwd: Seq<char>, n: int)
    requires
        0 <= n <= entries.len(),
        named_packages(entries.take(n), cwd) is Err,
    ensures
        named_packages(entries, cwd) == named_packages(entries.take(n), cwd),
    decreases entries.len() - n,
{
    if n < entries.len() {
        assert(entries.take(n + 1).drop_last() =~= entries.take(n));
        lemma_bad_entry(entries, cwd, n + 1);
    } else {
        assert(entries.take(n) =~= entries);
    }
}

/// The packages that entries `NAME=PATH` name, as seen from `cwd`; the later of two of
/// one name wins. The first entry without `=` is given back as an error.
pub fn parse_package_args(entries: &Vec<String>, cwd: &str) -> (r: Result<
    Vec<(String, String)>,
    String,
>)
    ensures
        registry_outcome(r) == named_packages(texts(entries@), cwd@),
{
    let ghost all = texts(entries@);
    let mut out: Vec<(String, String)> = Vec::new();
    let mut i: usize = 0;
    assert(registry_views(out@) =~= seq![]);
    while i < entries.len()
        invariant
            i <= entries@.len(),
            all == texts(entries@),
            named_packages(all.take(i as int), cwd@) == Ok::<
                Seq<(Seq<char>, Seq<char>)>,
                Seq<char>,
            >(registry_views(out@)),
        decreases entries@.len() - i,
    {
        proof {
            assert(all.take(i + 1).drop_last() =~= all.take(i as int));
            assert(all.take(i + 1).last() == entries@[i as int]@);
        }
        match parse_entry(entries[i].as_str(), cwd) {
            Some((name, path)) => register(&mut out, name, path),
            None => {
                proof {
                    lemma_bad_entry(all, cwd@, i + 1);
                }
                return Err(entries[i].clone());
            },
        }
        i += 1;
    }
    assert(all.take(i as int) =~= all);
    Ok(out)
}

// ── Packages in a configuration file ────────────────────────────────────────

/// What a YAML text has under a key: the text of its parse error; nothing where there is
/// no mapping under the key; else the keys and values of that mapping, those that are
/// strings.
pub uninterp spec fn yaml_mapping(text: Seq<char>, key: Seq<char>) -> Result<
    Option<Seq<(Option<Seq<char>>, Option<Seq<char>>)>>,
    Seq<char>,
>;

/// Optional keys and values.
pub open spec fn yaml_views(v: Seq<(Option<String>, Option<String>)>) -> Seq<
    (Option<Seq<char>>, Option<Seq<char>>),
> {
    v.map_values(|p: (Option<String>, Option<String>)| (opt_text(p.0), opt_text(p.1)))
}

/// `serde_yaml::from_str` into a `serde_yaml::Value`, then `get` and `as_mapping`: the
/// pairs of the mapping under the key in the order of the text, `as_str` of each key and
/// of each value. An error is given as the text that it displays.
#[verifier::external_body]
pub(crate) fn read_yaml_mapping(text: &str, key: &str) -> (r: Result<
    Option<Vec<(Option<String>, Option<String>)>>,
    String,
>)
    ensures
        match r {
            Ok(Some(v)) => yaml_mapping(text@, key@) == Ok::<_, Seq<char>>(
                Some(yaml_views(v@)),
            ),
            Ok(None) => yaml_mapping(text@, key@) == Ok::<
                Option<Seq<(Option<Seq<char>>, Option<Seq<char>>)>>,
                Seq<char>,
            >(None),
            Err(e) => yaml_mapping(text@, key@) == Err::<
                Option<Seq<(Option<Seq<char>>, Option<Seq<char>>)>>,
                Seq<char>,
            >(e@),
        },
{
    let raw: serde_yaml::Value = match serde_yaml::from_str(text) {
        Ok(raw) => raw,
        Err(e) => return Err(e.to_string()),
    };
    let found = raw.get(key).and_then(|v| v.as_mapping());
    Ok(found.map(|m| m.iter().map(|(k, v)| (k.as_str().map(String::from), v.as_str().map(
        String::from,
    ))).collect()))
}

/// What is wrong with a configuration file.
#[derive(Debug, Clone)]
pub enum ConfigError {
    /// It is no YAML; with what the parser says.
    Malformed(String),
    /// It has no mapping `packages` at its top.
    NoPackages,
}

/// What is wrong with a configuration file.
pub enum ConfigErrorView {
    Malformed(Seq<char>),
    NoPackages,
}

/// A text, or the empty one.
pub open spec fn or_empty(t: Option<Seq<char>>) -> Seq<char> {
    match t {
        Some(t) => t,
        None => seq![],
    }
}

/// The packages that pairs of a name and a path register, as seen from `base_dir`. What is
/// no string counts as an empty one.
pub open spec fn configured(
    pairs: Seq<(Option<Seq<char>>, Option<Seq<char>>)>,
    base_dir: Seq<char>,
) -> Seq<(Seq<char>, Seq<char>)>
    decreases pairs.len(),
{
    if pairs.len() == 0 {
        seq![]
    } else {
        registered(
            configured(pairs.drop_last(), base_dir),
            or_empty(pairs.last().0),
            join_path(base_dir, or_empty(pairs.last().1)),
        )
    }
}

/// The packages of a configuration file, from what its text has under `packages`.
pub open spec fn packages_of(
    found: Result<Option<Seq<(Option<Seq<char>>, Option<Seq<char>>)>>, Seq<char>>,
    base_dir: Seq<char>,
) -> Result<Seq<(Seq<char>, Seq<char>)>, ConfigErrorView> {
    match found {
        Ok(Some(pairs)) => Ok(configured(pairs, base_dir)),
        Ok(None) => Err(ConfigErrorView::NoPackages),
        Err(e) => Err(ConfigErrorView::Malformed(e)),
    }
}

/// A registry or what is wrong with its file.
pub open spec fn config_outcome(r: Result<Vec<(String, String)>, ConfigError>) -> Result<
    Seq<(Seq<char>, Seq<char>)>,
    ConfigErrorView,
> {
    match r {
        Ok(v) => Ok(registry_views(v@)),
        Err(ConfigError::Malformed(e)) => Err(ConfigErrorView::Malformed(e@)),
        Err(ConfigError::NoPackages) => Err(ConfigErrorView::NoPackages),
    }
}

/// What was found under `packages`.
pub open spec fn found_view(
    found: Result<Option<Vec<(Option<String>, Option<String>)>>, String>,
) -> Result<Option<Seq<(Option<Seq<char>>, Option<Seq<char>>)>>, Seq<char>> {
    match found {
        Ok(Some(v)) => Ok(Some(yaml_views(v@))),
        Ok(None) => Ok(None),
        Err(e) => Err(e@),
    }
}

fn text_or_empty(t: &Option<String>) -> (r: String)
    ensures
        r@ == or_empty(opt_text(*t)),
{
    match t {
        Some(t) => t.clone(),
        None => {
            let empty = String::new();
            assert(empty@ =~= seq![]);
            empty
        },
    }
}

/// The packages of a configuration file, from what its text has under `packages`. Paths
/// are as seen from `base_dir`.
pub fn register_configured(
    found: Result<Option<Vec<(Option<String>, Option<String>)>>, String>,
    base_dir: &str,
) -> (r: Result<Vec<(String, String)>, ConfigError>)
    ensures
        config_outcome(r) == packages_of(found_view(found), base_dir@),
{
    let pairs = match found {
        Ok(Some(pairs)) => pairs,
        Ok(None) => {
            return Err(ConfigError::NoPackages);
        },
        Err(e) => {
            return Err(ConfigError::Malformed(e));
        },
    };
    let ghost all = yaml_views(pairs@);
    let mut out: Vec<(String, String)> = Vec::new();
    let mut i: usize = 0;
    assert(registry_views(out@) =~= seq![]);
    while i < pairs.len()
        invariant
            i <= pairs@.len(),
            all == yaml_views(pairs@),
            registry_views(out@) == configured(all.take(i as int), base_dir@),
        decreases pairs@.len() - i,
    {
        let pair = &pairs[i];
        proof {
            assert(all.take(i + 1).drop_last() =~= all.take(i as int));
            assert(all.take(i + 1).last() == (opt_text(pair.0), opt_text(pair.1)));
        }
        let name = text_or_empty(&pair.0);
        let path = joined_path(base_dir, text_or_empty(&pair.1).as_str());
        register(&mut out, name, path);
        i += 1;
    }
    assert(all.take(i as int) =~= all);
    Ok(out)
}

/// The packages of a configuration file with the given text. Paths are as seen from
/// `base_dir`, the directory of the file.
pub fn load_packages_from_config(text: &str, base_dir: &str) -> (r: Result<
    Vec<(String, String)>,
    ConfigError,
>)
    ensures
        config_outcome(r) == packages_of(yaml_mapping(text@, "packages"@), base_dir@),
{
    let found = read_yaml_mapping(text, "packages");
    assert(found_view(found) == yaml_mapping(text@, "packages"@));
    register_configured(found, base_dir)
}

/// The packages that are scanned: those of the configuration file, or the defaults where
/// there is none, with those of the entries on top, which add to them and override them.
pub open spec fn resolved(
    from_config: Option<Seq<(Seq<char>, Seq<char>)>>,
    from_args: Seq<(Seq<char>, Seq<char>)>,
    defaults: Seq<(Seq<char>, Seq<char>)>,
) -> Seq<(Seq<char>, Seq<char>)> {
    registered_all(
        match from_config {
            Some(s) => s,
            None => defaults,
        },
        from_args,
    )
}

/// The packages that are scanned. `from_config` are those of a configuration file, where
/// one is given; `package_args` are entries `NAME=PATH`, as seen from `cwd`.
pub fn resolve_packages(
    from_config: Option<Vec<(String, String)>>,
    package_args: &Vec<String>,
    defaults: Vec<(String, String)>,
    cwd: &str,
) -> (r: Result<Vec<(String, String)>, String>)
    ensures
        registry_outcome(r) == match named_packages(texts(package_args@), cwd@) {
            Ok(args) => Ok(
                resolved(
                    match from_config {
                        Some(v) => Some(registry_views(v@)),
                        None => None,
                    },
                    args,
                    registry_views(defaults@),
                ),
            ),
            Err(bad) => Err(bad),
        },
{
    let more = match parse_package_args(package_args, cwd) {
        Ok(more) => more,
        Err(bad) => {
            return Err(bad);
        },
    };
    let mut out: Vec<(String, String)> = match from_config {
        Some(v) => v,
        None => defaults,
    };
    register_all(&mut out, &more);
    Ok(out)
}

/// A package is scanned where its entry says; without an entry, where the configuration
/// file says or, if there is none, where the defaults say.
pub proof fn law_entries_come_first(
    from_config: Option<Seq<(Seq<char>, Seq<char>)>>,
    from_args: Seq<(Seq<char>, Seq<char>)>,
    defaults: Seq<(Seq<char>, Seq<char>)>,
    name: Seq<char>,
)
    requires
        from_config matches Some(s) ==> is_registry(s),
        is_registry(defaults),
    ensures
        is_registry(resolved(from_config, from_args, defaults)),
        path_in(resolved(from_config, from_args, defaults), name) == match path_in(
            from_args,
            name,
        ) {
            Some(path) => Some(path),
            None => match from_config {
                Some(s) => path_in(s, name),
                None => path_in(defaults, name),
            },
        },
{
    match from_config {
        Some(s) => law_later_packages_win(s, from_args, name),
        None => law_later_packages_win(defaults, from_args, name),
    }
}

// ── Packages in the current directory ───────────────────────────────────────

/// Whether a directory holds nothing of the project's own.
pub open spec fn is_noise(name: Seq<char>) -> bool {
    ||| name.len() > 0 && name[0] == '.'
    ||| name == "__pycache__"@
    ||| name == "node_modules"@
    ||| name == "build"@
    ||| name == "dist"@
    ||| name == "site-packages"@
    ||| ".egg-info"@.is_suffix_of(name)
}

/// Whether a directory holds nothing of the project's own.
pub fn is_noise_dir(name: &str) -> (r: bool)
    ensures
        r == is_noise(name@),
{
    (name.unicode_len() > 0 && name.get_char(0) == '.') || same(name, "__pycache__") || same(
        name,
        "node_modules",
    ) || same(name, "build") || same(name, "dist") || same(name, "site-packages") || ends_with(
        name,
        ".egg-info",
    )
}

/// The texts in paths that are left out where packages are discovered.
pub open spec fn cwd_excludes() -> Seq<Seq<char>> {
    seq![
        "/.venv/"@,
        "/venv/"@,
        "/.git/"@,
        "/__pycache__/"@,
        "/node_modules/"@,
        "/build/"@,
        "/dist/"@,
        ".egg-info"@,
        "/.mypy_cache/"@,
        "/.pytest_cache/"@,
        "/.ruff_cache/"@,
        "/.tox/"@,
        "/site-packages/"@,
    ]
}

/// The texts in paths that are left out where packages are discovered.
pub fn default_cwd_excludes() -> (r: Vec<String>)
    ensures
        texts(r@) == cwd_excludes(),
{
    let mut out: Vec<String> = Vec::new();
    out.push("/.venv/".to_owned());
    out.push("/venv/".to_owned());
    out.push("/.git/".to_owned());
    out.push("/__pycache__/".to_owned());
    out.push("/node_modules/".to_owned());
    out.push("/build/".to_owned());
    out.push("/dist/".to_owned());
    out.push(".egg-info".to_owned());
    out.push("/.mypy_cache/".to_owned());
    out.push("/.pytest_cache/".to_owned());
    out.push("/.ruff_cache/".to_owned());
    out.push("/.tox/".to_owned());
    out.push("/site-packages/".to_owned());
    assert(texts(out@) =~= cwd_excludes());
    out
}

/// An entry of a directory: its name, its path, whether it is a directory itself and, if
/// so, whether Python files lie anywhere below it.
pub struct DirEntry {
    pub name: String,
    pub path: String,
    pub is_dir: bool,
    pub has_python: bool,
}

/// Whether an entry is a package of its own: a directory of the project's own with
/// Python files.
pub open spec fn is_package(e: DirEntry) -> bool {
    e.is_dir && !is_noise(e.name@) && e.has_python
}

/// Whether an entry is a Python file outside any subdirectory.
pub open spec fn is_loose(e: DirEntry) -> bool {
    !e.is_dir && is_python_path(e.path@)
}

/// The entries that are packages, as a registry.
pub open spec fn subpackages(entries: Seq<DirEntry>) -> Seq<(Seq<char>, Seq<char>)>
    decreases entries.len(),
{
    if entries.len() == 0 {
        seq![]
    } else {
        let rest = subpackages(entries.drop_last());
        let e = entries.last();
        if is_package(e) {
            registered(rest, e.name@, e.path@)
        } else {
            rest
        }
    }
}

/// Whether there are Python files outside any subdirectory.
pub open spec fn has_loose(entries: Seq<DirEntry>) -> bool {
    exists|i: int| 0 <= i < entries.len() && is_loose(#[trigger] entries[i])
}

/// The name of the package of loose files: that of the directory, told apart from a
/// subdirectory of the same name.
pub open spec fn loose_name(
    packages: Seq<(Seq<char>, Seq<char>)>,
    cwd: Seq<char>,
    canonical: Seq<char>,
) -> Seq<char> {
    let base = match file_name(canonical) {
        Some(name) => name,
        None => cwd,
    };
    if path_in(packages, base) is Some {
        base + " (root)"@
    } else {
        base
    }
}

/// The packages below a directory: each subdirectory of the project's own that has Python
/// files, and one for the Python files that lie in the directory itself.
pub open spec fn discovered(
    entries: Seq<DirEntry>,
    cwd: Seq<char>,
    canonical: Seq<char>,
) -> (Seq<(Seq<char>, Seq<char>)>, Option<Seq<char>>) {
    let packages = subpackages(entries);
    if has_loose(entries) {
        let name = loose_name(packages, cwd, canonical);
        (registered(packages, name, cwd), Some(name))
    } else {
        (packages, None)
    }
}

/// The packages below a directory, and the name of the one that holds the files of the
/// directory itself. `entries` is what lies in `cwd`, `canonical` its absolute path.
pub fn discover_cwd_packages(entries: &Vec<DirEntry>, cwd: &str, canonical: &str) -> (r: (
    Vec<(String, String)>,
    Option<String>,
))
    ensures
        (registry_views(r.0@), opt_text(r.1)) == discovered(entries@, cwd@, canonical@),
{
    let mut packages: Vec<(String, String)> = Vec::new();
    let mut loose = false;
    let mut i: usize = 0;
    assert(registry_views(packages@) =~= seq![]);
    while i < entries.len()
        invariant
            i <= entries@.len(),
            registry_views(packages@) == subpackages(entries@.take(i as int)),
            loose == has_loose(entries@.take(i as int)),
        decreases entries@.len() - i,
    {
        let e = &entries[i];
        proof {
            let before = entries@.take(i as int);
            let now = entries@.take(i + 1);
            assert(now.drop_last() =~= before);
            assert(now.last() == *e);
            if has_loose(before) {
                let k = choose|k: int| 0 <= k < before.len() && is_loose(#[trigger] before[k]);
                assert(is_loose(now[k]));
            }
            if is_loose(*e) {
                assert(is_loose(now[i as int]));
            }
            if has_loose(now) && !is_loose(*e) {
                let k = choose|k: int| 0 <= k < now.len() && is_loose(#[trigger] now[k]);
                assert(is_loose(before[k]));
            }
        }
        if e.is_dir {
            if !is_noise_dir(e.name.as_str()) && e.has_python {
                register(&mut packages, e.name.clone(), e.path.clone());
            }
        } else if is_python_file(e.path.as_str()) {
            loose = true;
        }
        i += 1;
    }
    assert(entries@.take(i as int) =~= entries@);
    if !loose {
        return (packages, None);
    }
    let base = match file_name_of(canonical) {
        Some(name) => name,
        None => cwd.to_owned(),
    };
    let name = if find_path(&packages, base.as_str()).is_some() {
        base.concat(" (root)")
    } else {
        base
    };
    register(&mut packages, name.clone(), cwd.to_owned());
    (packages, Some(name))
}

// ── Runs ────────────────────────────────────────────────────────────────────

/// Whether a run names neither a configuration file nor a package. Such a run scans what
/// lies under the current directory.
pub open spec fn bare(has_config: bool, package_args: Seq<Seq<char>>) -> bool {
    !has_config && package_args.len() == 0
}

/// Whether a run names neither a configuration file nor a package.
pub fn is_bare(has_config: bool, package_args: &Vec<String>) -> (r: bool)
    ensures
        r == bare(has_config, texts(package_args@)),
{
    assert(texts(package_args@).len() == package_args@.len());
    !has_config && package_args.len() == 0
}

/// What a run scans: its packages, the one of them whose subdirectories are packages of
/// their own, and the texts in paths that are left out.
pub struct RunPlan {
    pub registry: Vec<(String, String)>,
    pub loose_root: Option<String>,
    pub exclude: Vec<String>,
}

/// What a `RunPlan` says.
pub struct RunPlanView {
    pub registry: Seq<(Seq<char>, Seq<char>)>,
    pub loose_root: Option<Seq<char>>,
    pub exclude: Seq<Seq<char>>,
}

impl View for RunPlan {
    type V = RunPlanView;

    open spec fn view(&self) -> RunPlanView {
        RunPlanView {
            registry: registry_views(self.registry@),
            loose_root: opt_text(self.loose_root),
            exclude: texts(self.exclude@),
        }
    }
}

/// A bare run: the packages below the current directory, but for caches and the like.
pub open spec fn bare_run(
    entries: Seq<DirEntry>,
    cwd: Seq<char>,
    canonical: Seq<char>,
    exclude: Seq<Seq<char>>,
) -> RunPlanView {
    RunPlanView {
        registry: discovered(entries, cwd, canonical).0,
        loose_root: discovered(entries, cwd, canonical).1,
        exclude: exclude + cwd_excludes(),
    }
}

/// A bare run.
pub fn plan_bare_run(
    entries: &Vec<DirEntry>,
    cwd: &str,
    canonical: &str,
    exclude: Vec<String>,
) -> (r: RunPlan)
    ensures
        r@ == bare_run(entries@, cwd@, canonical@, texts(exclude@)),
{
    let (registry, loose_root) = discover_cwd_packages(entries, cwd, canonical);
    let mut more = default_cwd_excludes();
    let mut all = exclude;
    let ghost added = more@;
    all.append(&mut more);
    assert(texts(all@) =~= texts(exclude@) + texts(added));
    RunPlan { registry, loose_root, exclude: all }
}

/// A run that names a configuration file or packages: only what is asked for is left out,
/// and every package is scanned with its subdirectories.
pub fn plan_explicit_run(
    from_config: Option<Vec<(String, String)>>,
    package_args: &Vec<String>,
    defaults: Vec<(String, String)>,
    cwd: &str,
    exclude: Vec<String>,
) -> (r: Result<RunPlan, String>)
    ensures
        match named_packages(texts(package_args@), cwd@) {
            Ok(args) => r matches Ok(plan) && plan@ == (RunPlanView {
                registry: resolved(
                    match from_config {
                        Some(v) => Some(registry_views(v@)),
                        None => None,
                    },
                    args,
                    registry_views(defaults@),
                ),
                loose_root: None,
                exclude: texts(exclude@),
            }),
            Err(bad) => r matches Err(e) && e@ == bad,
        },
{
    match resolve_packages(from_config, package_args, defaults, cwd) {
        Ok(registry) => Ok(RunPlan { registry, loose_root: None, exclude }),
        Err(bad) => Err(bad),
    }
}

/// How a package of a run is scanned.
pub open spec fn settings(
    plan: RunPlanView,
    name: Seq<char>,
    min_duplicate_lines: nat,
    twin_similarity: Ratio,
) -> ConfigView {
    ConfigView {
        exclude: plan.exclude,
        min_duplicate_lines,
        twin_similarity,
        recursive: plan.loose_root != Some(name),
    }
}

/// How a package of a run is scanned.
pub fn package_config(
    plan: &RunPlan,
    name: &str,
    min_duplicate_lines: usize,
    twin_similarity: Ratio,
) -> (r: ScanConfig)
    ensures
        config_view(r) == settings(plan@, name@, min_duplicate_lines as nat, twin_similarity),
{
    let recursive = match &plan.loose_root {
        Some(root) => !same(root.as_str(), name),
        None => true,
    };
    let exclude = copy_names(&plan.exclude);
    ScanConfig { exclude, min_duplicate_lines, twin_similarity, recursive }
}

/// What a run prints.
#[derive(Debug, Clone, Copy, PartialEq, Eq, Structural)]
pub enum Output {
    Plan,
    Json,
    Text,
}

/// What a run prints: a plan where one is asked for, whatever else is.
pub fn output_kind(plan: bool, json: bool) -> (r: Output)
    ensures
        r == if plan {
            Output::Plan
        } else if json {
            Output::Json
        } else {
            Output::Text
        },
{
    if plan {
        Output::Plan
    } else if json {
        Output::Json
    } else {
        Output::Text
    }
}

proof fn lemma_paths_of_subpackages(entries: Seq<DirEntry>, name: Seq<char>)
    requires
        path_in(subpackages(entries), name) is Some,
    ensures
        exists|i: int|
            0 <= i < entries.len() && is_package(#[trigger] entries[i]) && path_in(
                subpackages(entries),
                name,
            ) == Some(entries[i].path@),
    decreases entries.len(),
{
    if entries.len() > 0 {
        let rest = entries.drop_last();
        let e = entries.last();
        lemma_subpackages_in_order(rest);
        if is_package(e) {
            law_registered_packages_are_found(subpackages(rest), e.name@, e.path@, name);
        }
        if is_package(e) && e.name@ == name {
            assert(is_package(entries[entries.len() - 1]));
        } else {
            lemma_paths_of_subpackages(rest, name);
            let i = choose|i: int|
                0 <= i < rest.len() && is_package(#[trigger] rest[i]) && path_in(
                    subpackages(rest),
                    name,
                ) == Some(rest[i].path@);
            assert(is_package(entries[i]));
        }
    }
}

/// A bare run scans what lies in the current directory and nothing else: each of its
/// packages is a subdirectory that has Python files, or the directory itself.
pub proof fn law_bare_runs_stay_in_the_directory(
    entries: Seq<DirEntry>,
    cwd: Seq<char>,
    canonical: Seq<char>,
    exclude: Seq<Seq<char>>,
    name: Seq<char>,
)
    requires
        path_in(bare_run(entries, cwd, canonical, exclude).registry, name) is Some,
    ensures
        path_in(bare_run(entries, cwd, canonical, exclude).registry, name) == Some(cwd) || exists|
            i: int,
        |
            0 <= i < entries.len() && is_package(#[trigger] entries[i]) && path_in(
                bare_run(entries, cwd, canonical, exclude).registry,
                name,
            ) == Some(entries[i].path@),
{
    let packages = subpackages(entries);
    let loose = loose_name(packages, cwd, canonical);
    lemma_subpackages_in_order(entries);
    if has_loose(entries) {
        law_registered_packages_are_found(packages, loose, cwd, name);
    }
    if !(has_loose(entries) && name == loose) {
        lemma_paths_of_subpackages(entries, name);
    }
}

/// No file of a subdirectory is scanned for the files of the directory itself.
pub proof fn law_loose_files_lie_at_the_top(
    plan: RunPlanView,
    name: Seq<char>,
    min_duplicate_lines: nat,
    twin_similarity: Ratio,
    root: Seq<char>,
    path: Seq<char>,
)
    requires
        plan.loose_root == Some(name),
        is_scanned(root, path, settings(plan, name, min_duplicate_lines, twin_similarity)),
    ensures
        components(path).len() <= components(root).len() + 1,
{
}

// ── Selection ───────────────────────────────────────────────────────────────

/// The name, if it is not registered.
pub open spec fn if_unknown(registry: Seq<(Seq<char>, Seq<char>)>) -> spec_fn(Seq<char>) -> Seq<
    Seq<char>,
> {
    |name: Seq<char>|
        if path_in(registry, name) is None {
            seq![name]
        } else {
            seq![]
        }
}

/// The packages that are asked for, as often as they are, or all of them; or the message on
/// what is wrong.
pub open spec fn selection(
    registry: Seq<(Seq<char>, Seq<char>)>,
    requested: Option<Seq<Seq<char>>>,
) -> Result<Seq<Seq<char>>, Seq<char>> {
    if registry.len() == 0 {
        Err("error: no packages to scan — the resolved package registry is empty"@)
    } else {
        let selected = match requested {
            Some(names) => names,
            None => names_in(registry),
        };
        let unknown = selected.flat_map(if_unknown(registry));
        if unknown.len() > 0 {
            Err(
                "error: unknown package(s): "@ + join(unknown, ", "@) + ". Available: "@ + join(
                    names_in(registry),
                    ", "@,
                ),
            )
        } else {
            Ok(selected)
        }
    }
}

fn list_unknown(registry: &Vec<(String, String)>, selected: &Vec<String>) -> (r: Vec<String>)
    ensures
        texts(r@) == texts(selected@).flat_map(if_unknown(registry_views(registry@))),
{
    let ghost all = texts(selected@);
    let ghost f = if_unknown(registry_views(registry@));
    let mut out: Vec<String> = Vec::new();
    let mut i: usize = 0;
    assert(texts(out@) =~= all.take(0).flat_map(f));
    while i < selected.len()
        invariant
            i <= selected@.len(),
            all == texts(selected@),
            f == if_unknown(registry_views(registry@)),
            texts(out@) == all.take(i as int).flat_map(f),
        decreases selected@.len() - i,
    {
        let ghost before = texts(out@);
        proof {
            all.lemma_flat_map_take_append(f, i as int);
            assert(all[i as int] == selected@[i as int]@);
            assert(before + seq![] =~= before);
        }
        if find_path(registry, selected[i].as_str()).is_none() {
            out.push(selected[i].clone());
            assert(texts(out@) =~= before + seq![selected@[i as int]@]);
        }
        i += 1;
    }
    assert(all.take(i as int) =~= all);
    out
}

/// The packages that are scanned: each of those that are asked for, once, where it is first
/// asked for.
pub fn scan_order(names: &Vec<String>) -> (r: Vec<String>)
    ensures
        texts(r@) == distinct_texts(texts(names@)),
{
    let ghost all = texts(names@);
    let mut out: Vec<String> = Vec::new();
    let mut i: usize = 0;
    assert(texts(out@) =~= distinct_texts(all.take(0)));
    while i < names.len()
        invariant
            i <= names@.len(),
            all == texts(names@),
            texts(out@) == distinct_texts(all.take(i as int)),
        decreases names@.len() - i,
    {
        proof {
            assert(all.take(i + 1).drop_last() =~= all.take(i as int));
            assert(all[i as int] == names@[i as int]@);
        }
        add_text(&mut out, names[i].as_str());
        i += 1;
    }
    assert(all.take(i as int) =~= all);
    out
}

fn copy_names(v: &Vec<String>) -> (r: Vec<String>)
    ensures
        texts(r@) == texts(v@),
{
    let mut out: Vec<String> = Vec::new();
    let mut i: usize = 0;
    while i < v.len()
        invariant
            i <= v@.len(),
            texts(out@) == texts(v@).take(i as int),
        decreases v@.len() - i,
    {
        let ghost before = texts(out@);
        out.push(v[i].clone());
        assert(texts(out@) =~= before.push(v@[i as int]@));
        assert(texts(v@).take(i + 1) =~= texts(v@).take(i as int).push(texts(v@)[i as int]));
        i += 1;
    }
    assert(texts(v@).take(i as int) =~= texts(v@));
    out
}

/// The packages that are asked for, or all of them; or the message on what is wrong.
pub fn select_packages(registry: &Vec<(String, String)>, requested: &Option<Vec<String>>) -> (r:
    Result<Vec<String>, String>)
    ensures
        (match r {
            Ok(v) => Ok(texts(v@)),
            Err(e) => Err(e@),
        }) == selection(
            registry_views(registry@),
            match requested {
                Some(v) => Some(texts(v@)),
                None => None,
            },
        ),
{
    assert(registry_views(registry@).len() == registry@.len());
    if registry.len() == 0 {
        return Err(
            "error: no packages to scan — the resolved package registry is empty".to_owned(),
        );
    }
    let names = list_names(registry);
    let selected: Vec<String> = match requested {
        Some(v) => copy_names(v),
        None => list_names(registry),
    };
    let unknown = list_unknown(registry, &selected);
    assert(texts(unknown@).len() == unknown@.len());
    if unknown.len() > 0 {
        return Err(
            "error: unknown package(s): ".to_owned().concat(
                joined(&unknown, ", ").as_str(),
            ).concat(". Available: ").concat(joined(&names, ", ").as_str()),
        );
    }
    Ok(selected)
}

/// The package, if its path does not exist.
pub open spec fn if_missing() -> spec_fn((Seq<char>, Seq<char>, bool)) -> Seq<Seq<char>> {
    |p: (Seq<char>, Seq<char>, bool)|
        if p.2 {
            seq![]
        } else {
            seq![p.0 + "="@ + p.1]
        }
}

/// A package, its path, and whether the path exists.
pub struct PackagePath {
    pub name: String,
    pub path: String,
    pub exists: bool,
}

/// Packages, their paths, and whether the paths exist.
pub open spec fn package_path_views(v: Seq<PackagePath>) -> Seq<(Seq<char>, Seq<char>, bool)> {
    v.map_values(|p: PackagePath| (p.name@, p.path@, p.exists))
}

/// The message on packages whose paths do not exist, if there are any.
pub open spec fn missing(packages: Seq<(Seq<char>, Seq<char>, bool)>) -> Option<Seq<char>> {
    let gone = packages.flat_map(if_missing());
    if gone.len() > 0 {
        Some("error: package path(s) do not exist: "@ + join(gone, ", "@))
    } else {
        None
    }
}

/// The message on packages whose paths do not exist, if there are any. Scanning such a
/// package would find nothing, as scanning a clean one does.
pub fn missing_message(packages: &Vec<PackagePath>) -> (r: Option<String>)
    ensures
        opt_text(r) == missing(package_path_views(packages@)),
{
    let ghost all = package_path_views(packages@);
    let ghost f = if_missing();
    let mut gone: Vec<String> = Vec::new();
    let mut i: usize = 0;
    assert(texts(gone@) =~= all.take(0).flat_map(f));
    while i < packages.len()
        invariant
            i <= packages@.len(),
            all == package_path_views(packages@),
            f == if_missing(),
            texts(gone@) == all.take(i as int).flat_map(f),
        decreases packages@.len() - i,
    {
        let p = &packages[i];
        let ghost before = texts(gone@);
        proof {
            all.lemma_flat_map_take_append(f, i as int);
            assert(all[i as int] == (p.name@, p.path@, p.exists));
            assert(before + seq![] =~= before);
        }
        if !p.exists {
            let text = p.name.clone().concat("=").concat(p.path.as_str());
            gone.push(text);
            assert(texts(gone@) =~= before + seq![text@]);
        }
        i += 1;
    }
    assert(all.take(i as int) =~= all);
    assert(texts(gone@).len() == gone@.len());
    if gone.len() > 0 {
        Some("error: package path(s) do not exist: ".to_owned().concat(joined(&gone, ", ").as_str()))
    } else {
        None
    }
}

// ── Results ─────────────────────────────────────────────────────────────────

/// What results say.
pub open spec fn result_views(v: Seq<ScanResult>) -> Seq<ResultView> {
    v.map_values(|r: ScanResult| r@)
}

/// Results one behind the other.
pub open spec fn total_of(results: Seq<ResultView>) -> ResultView
    decreases results.len(),
{
    if results.len() == 0 {
        empty_result()
    } else {
        combined(total_of(results.drop_last()), results.last())
    }
}

proof fn lemma_total_grows(results: Seq<ResultView>, n: int)
    requires
        0 <= n <= results.len(),
        countable(total_of(results)),
    ensures
        countable(total_of(results.take(n))),
    decreases results.len() - n,
{
    if n < results.len() {
        lemma_total_grows(results, n + 1);
        assert(results.take(n + 1).drop_last() =~= results.take(n));
    } else {
        assert(results.take(n) =~= results);
    }
}

/// The results of the packages one behind the other; nothing where the counts do not fit
/// a machine word.
pub fn combine_results(results: Vec<ScanResult>) -> (r: Option<ScanResult>)
    ensures
        r is Some <==> countable(total_of(result_views(results@))),
        r matches Some(total) ==> total@ == total_of(result_views(results@)),
{
    let ghost all = result_views(results@);
    let ghost whole = results@;
    let mut rest = results;
    let mut total: ScanResult = Default::default();
    let ghost mut n: int = 0;
    assert(whole.skip(0) =~= whole);
    while rest.len() > 0
        invariant
            0 <= n <= whole.len(),
            rest@ == whole.skip(n),
            whole == results@,
            all == result_views(whole),
            total@ == total_of(all.take(n)),
        decreases rest@.len(),
    {
        let one = rest.remove(0);
        proof {
            assert(one == whole[n]);
            assert(rest@ =~= whole.skip(n + 1));
            assert(all[n] == one@);
            assert(all.take(n + 1).drop_last() =~= all.take(n));
            assert(all.take(n + 1).last() == one@);
        }
        if total.files_scanned.checked_add(one.files_scanned).is_none()
            || total.functions_scanned.checked_add(one.functions_scanned).is_none()
            || total.total_lines.checked_add(one.total_lines).is_none()
            || total.suppressed.checked_add(one.suppressed).is_none() {
            proof {
                if countable(total_of(all)) {
                    lemma_total_grows(all, n + 1);
                }
            }
            return None;
        }
        total.extend(one);
        proof {
            n = n + 1;
        }
    }
    assert(all.take(n) =~= all);
    Some(total)
}

// ── The text report ─────────────────────────────────────────────────────────

/// A finding that stays, as a line.
pub open spec fn issue_line(i: IssueView, root: Option<Seq<char>>) -> Seq<char> {
    "  "@ + shown_path(i.file, root) + " L"@ + at_left(dec(i.line), 5) + " ["@ + i.rule + "] "@
        + i.message + "\n"@
}

/// Findings that stay, each as a line.
pub open spec fn issue_lines(issues: Seq<IssueView>, root: Option<Seq<char>>) -> Seq<char>
    decreases issues.len(),
{
    if issues.len() == 0 {
        seq![]
    } else {
        issue_lines(issues.drop_last(), root) + issue_line(issues.last(), root)
    }
}

/// A finding that a marker suppresses, as a line with the reason that was given.
pub open spec fn ignored_line(i: IssueView, root: Option<Seq<char>>) -> Seq<char> {
    "  "@ + icon(i.severity) + " "@ + shown_path(i.file, root) + ":"@ + dec(i.line) + " ["@ + i.rule
        + "] "@ + (match i.reason {
        Some(reason) => reason,
        None => "no reason given"@,
    }) + "\n"@
}

/// Findings that markers suppress, each as a line.
pub open spec fn ignored_lines(issues: Seq<IssueView>, root: Option<Seq<char>>) -> Seq<char>
    decreases issues.len(),
{
    if issues.len() == 0 {
        seq![]
    } else {
        ignored_lines(issues.drop_last(), root) + ignored_line(issues.last(), root)
    }
}

/// The order of findings that markers suppress: by the path that is shown, then by line.
pub open spec fn by_shown_path(root: Option<Seq<char>>) -> spec_fn(IssueView, IssueView) -> bool {
    |a: IssueView, b: IssueView|
        if shown_path(a.file, root) == shown_path(b.file, root) {
            a.line <= b.line
        } else {
            text_le(shown_path(a.file, root), shown_path(b.file, root))
        }
}

/// The counts of a report.
pub open spec fn summary(filtered: Seq<IssueView>, total: ResultView) -> Seq<char> {
    "  Files scanned:     "@ + dec(total.files_scanned) + "\n  Lines scanned:     "@ + dec(
        total.total_lines,
    ) + "\n  Functions scanned: "@ + dec(total.functions_scanned) + "\n  Total issues:      "@
        + dec(filtered.len()) + "\n    Errors:          "@ + dec(
        count_of(filtered, Severity::Error),
    ) + "\n    Warnings:        "@ + dec(count_of(filtered, Severity::Warning))
        + "\n    Info:            "@ + dec(count_of(filtered, Severity::Info)) + "\n"@ + (
    if total.suppressed > 0 {
        "  Suppressed:        "@ + dec(total.suppressed)
            + " (inline spaghetti-ignore markers)\n"@
    } else {
        seq![]
    })
}

/// The part of a report on findings that markers suppress.
pub open spec fn ignored_part(ignored: Seq<IssueView>, root: Option<Seq<char>>) -> Seq<char> {
    if ignored.len() > 0 {
        heading("SPAGHETTI-IGNORED (inline spaghetti-ignore markers)"@) + ignored_lines(
            sorted(ignored, by_shown_path(root)),
            root,
        ) + "\n"@
    } else {
        seq![]
    }
}

/// A report as text. `score` is the overall score, `grade` its letter.
pub open spec fn report_text(
    filtered: Seq<IssueView>,
    total: ResultView,
    score: Seq<char>,
    grade: Seq<char>,
    root: Option<Seq<char>>,
) -> Seq<char> {
    heading("SPAGHETTI CODE DETECTION REPORT"@) + summary(filtered, total)
        + "\n  Overall score: "@ + score + " ("@ + grade + ")\n\n"@ + ignored_part(
        total.ignored,
        root,
    ) + issue_lines(filtered, root)
}

fn write_summary(filtered: &Vec<&Issue>, total: &ScanResult) -> (r: String)
    ensures
        r@ == summary(ref_views(filtered@), total@),
{
    assert(ref_views(filtered@).len() == filtered@.len());
    let suppressed = if total.suppressed > 0 {
        "  Suppressed:        ".to_owned().concat(count_text(total.suppressed).as_str()).concat(
            " (inline spaghetti-ignore markers)\n",
        )
    } else {
        String::new()
    };
    assert(total.suppressed == 0 ==> suppressed@ =~= seq![]);
    "  Files scanned:     ".to_owned().concat(count_text(total.files_scanned).as_str()).concat(
        "\n  Lines scanned:     ",
    ).concat(count_text(total.total_lines).as_str()).concat("\n  Functions scanned: ").concat(
        count_text(total.functions_scanned).as_str(),
    ).concat("\n  Total issues:      ").concat(count_text(filtered.len()).as_str()).concat(
        "\n    Errors:          ",
    ).concat(count_text(count_selected(filtered, Severity::Error)).as_str()).concat(
        "\n    Warnings:        ",
    ).concat(count_text(count_selected(filtered, Severity::Warning)).as_str()).concat(
        "\n    Info:            ",
    ).concat(count_text(count_selected(filtered, Severity::Info)).as_str()).concat("\n").concat(
        suppressed.as_str(),
    )
}

fn write_issues(issues: &Vec<&Issue>, workspace_root: Option<&str>) -> (r: String)
    ensures
        r@ == issue_lines(ref_views(issues@), opt_str(workspace_root)),
{
    let ghost all = ref_views(issues@);
    let ghost root = opt_str(workspace_root);
    let mut out = String::new();
    let mut i: usize = 0;
    assert(out@ =~= seq![]);
    while i < issues.len()
        invariant
            i <= issues@.len(),
            all == ref_views(issues@),
            root == opt_str(workspace_root),
            out@ == issue_lines(all.take(i as int), root),
        decreases issues@.len() - i,
    {
        let x = issues[i];
        proof {
            assert(all.take(i + 1).drop_last() =~= all.take(i as int));
            assert(all.take(i + 1).last() == x@);
        }
        let line = "  ".to_owned().concat(
            display_path(x.file.as_str(), workspace_root).as_str(),
        ).concat(" L").concat(left_aligned(count_text(x.line).as_str(), 5).as_str()).concat(
            " [",
        ).concat(x.rule).concat("] ").concat(x.message.as_str()).concat("\n");
        out = out.concat(line.as_str());
        i += 1;
    }
    assert(all.take(i as int) =~= all);
    out
}

fn write_ignored_lines(issues: &Vec<&Issue>, workspace_root: Option<&str>) -> (r: String)
    ensures
        r@ == ignored_lines(ref_views(issues@), opt_str(workspace_root)),
{
    let ghost all = ref_views(issues@);
    let ghost root = opt_str(workspace_root);
    let mut out = String::new();
    let mut i: usize = 0;
    assert(out@ =~= seq![]);
    while i < issues.len()
        invariant
            i <= issues@.len(),
            all == ref_views(issues@),
            root == opt_str(workspace_root),
            out@ == ignored_lines(all.take(i as int), root),
        decreases issues@.len() - i,
    {
        let x = issues[i];
        proof {
            assert(all.take(i + 1).drop_last() =~= all.take(i as int));
            assert(all.take(i + 1).last() == x@);
        }
        let reason = match &x.reason {
            Some(reason) => reason.clone(),
            None => "no reason given".to_owned(),
        };
        let line = "  ".to_owned().concat(severity_icon(x.severity)).concat(" ").concat(
            display_path(x.file.as_str(), workspace_root).as_str(),
        ).concat(":").concat(count_text(x.line).as_str()).concat(" [").concat(x.rule).concat(
            "] ",
        ).concat(reason.as_str()).concat("\n");
        out = out.concat(line.as_str());
        i += 1;
    }
    assert(all.take(i as int) =~= all);
    out
}

spec fn ref_view<'a>() -> spec_fn(&'a Issue) -> IssueView {
    |i: &'a Issue| i@
}

fn refer_all<'a>(issues: &'a Vec<Issue>) -> (r: Vec<&'a Issue>)
    ensures
        r@.map_values(ref_view()) == issue_views(issues@),
{
    let ghost all = issue_views(issues@);
    let mut out: Vec<&'a Issue> = Vec::new();
    let mut i: usize = 0;
    while i < issues.len()
        invariant
            i <= issues@.len(),
            all == issue_views(issues@),
            out@.len() == i,
            forall|k: int| 0 <= k < i ==> (#[trigger] out@[k])@ == all[k],
        decreases issues@.len() - i,
    {
        assert(all[i as int] == issues@[i as int]@);
        out.push(&issues[i]);
        i += 1;
    }
    assert(out@.map_values(ref_view()) =~= all);
    out
}

fn write_ignored<'a>(ignored: &'a Vec<Issue>, workspace_root: Option<&str>) -> (r: String)
    ensures
        r@ == ignored_part(issue_views(ignored@), opt_str(workspace_root)),
{
    assert(issue_views(ignored@).len() == ignored@.len());
    if ignored.len() == 0 {
        let empty = String::new();
        assert(empty@ =~= seq![]);
        return empty;
    }
    let le = |a: &&'a Issue, b: &&'a Issue| -> (x: bool)
        ensures
            x == by_shown_path(opt_str(workspace_root))(ref_view()(*a), ref_view()(*b)),
        {
            let first = display_path(a.file.as_str(), workspace_root);
            let second = display_path(b.file.as_str(), workspace_root);
            if same(first.as_str(), second.as_str()) {
                a.line <= b.line
            } else {
                text_at_most(first.as_str(), second.as_str())
            }
        };
    let in_order = sort_by::<&'a Issue, IssueView, _>(
        refer_all(ignored),
        le,
        Ghost(ref_view()),
        Ghost(by_shown_path(opt_str(workspace_root))),
    );
    assert(ref_views(in_order@) =~= in_order@.map_values(ref_view()));
    make_heading("SPAGHETTI-IGNORED (inline spaghetti-ignore markers)").concat(
        write_ignored_lines(&in_order, workspace_root).as_str(),
    ).concat("\n")
}

/// A report as text: the counts, the overall score with its grade, the findings that
/// markers suppress and those that stay.
pub fn render_text_report(
    filtered: &Vec<&Issue>,
    total: &ScanResult,
    score: &str,
    grade: &str,
    workspace_root: Option<&str>,
) -> (r: String)
    ensures
        r@ == report_text(
            ref_views(filtered@),
            total@,
            score@,
            grade@,
            opt_str(workspace_root),
        ),
{
    make_heading("SPAGHETTI CODE DETECTION REPORT").concat(
        write_summary(filtered, total).as_str(),
    ).concat("\n  Overall score: ").concat(score).concat(" (").concat(grade).concat(
        ")\n\n",
    ).concat(write_ignored(&total.ignored, workspace_root).as_str()).concat(
        write_issues(filtered, workspace_root).as_str(),
    )
}

// ── Laws ────────────────────────────────────────────────────────────────────

/// The lowest severity keeps every finding.
pub proof fn law_info_keeps_everything(issues: Seq<IssueView>)
    ensures
        issues.flat_map(if_severe(rank("info"@))) == issues,
    decreases issues.len(),
{
    let f = if_severe(rank("info"@));
    if issues.len() == 0 {
        assert(issues.flat_map(f) =~= issues);
    } else {
        let rest = issues.drop_last();
        law_info_keeps_everything(rest);
        rest.lemma_flat_map_push(f, issues.last());
        assert(issues =~= rest.push(issues.last()));
        assert(rest + seq![issues.last()] =~= issues);
    }
}

/// The severities rank as their words do.
proof fn lemma_ranks()
    ensures
        rank(Severity::Info.word()) == 0,
        rank(Severity::Warning.word()) == 1,
        rank(Severity::Error.word()) == 2,
{
    reveal_strlit("info");
    reveal_strlit("warning");
    reveal_strlit("error");
    assert("warning"@.len() != "info"@.len());
    assert("error"@.len() != "info"@.len());
    assert("error"@.len() != "warning"@.len());
}

/// A severity as a filter keeps the findings of that severity and of higher ones, and no
/// others.
pub proof fn law_filter_keeps_the_severe(issues: Seq<IssueView>, min: Severity)
    ensures
        ({
            let kept = issues.flat_map(if_severe(rank(min.word())));
            &&& min == Severity::Error ==> kept.len() == count_of(issues, Severity::Error)
            &&& min == Severity::Warning ==> kept.len() == count_of(issues, Severity::Error)
                + count_of(issues, Severity::Warning)
            &&& min == Severity::Info ==> kept.len() == issues.len()
        }),
    decreases issues.len(),
{
    lemma_ranks();
    let f = if_severe(rank(min.word()));
    if issues.len() == 0 {
        assert(issues.flat_map(f) =~= seq![]);
    } else {
        let rest = issues.drop_last();
        law_filter_keeps_the_severe(rest, min);
        rest.lemma_flat_map_push(f, issues.last());
        assert(issues =~= rest.push(issues.last()));
    }
}

/// The exit code of all findings is the highest of the codes of their parts.
pub proof fn law_exit_code_is_the_worst(a: Seq<IssueView>, b: Seq<IssueView>)
    ensures
        code_for(a + b) == if code_for(a) >= code_for(b) {
            code_for(a)
        } else {
            code_for(b)
        },
        0 <= code_for(a) <= 2,
{
    lemma_counts_add(a, b, Severity::Error);
    lemma_counts_add(a, b, Severity::Warning);
}

proof fn lemma_counts_add(a: Seq<IssueView>, b: Seq<IssueView>, severity: Severity)
    ensures
        count_of(a + b, severity) == count_of(a, severity) + count_of(b, severity),
    decreases b.len(),
{
    if b.len() == 0 {
        assert(a + b =~= a);
    } else {
        assert((a + b).drop_last() =~= a + b.drop_last());
        lemma_counts_add(a, b.drop_last(), severity);
    }
}

/// Every subdirectory of the project's own that has Python files is a package under its
/// name, unless the package of loose files is named the same.
pub proof fn law_subdirectories_are_discovered(
    entries: Seq<DirEntry>,
    cwd: Seq<char>,
    canonical: Seq<char>,
    i: int,
)
    requires
        0 <= i < entries.len(),
        is_package(entries[i]),
        discovered(entries, cwd, canonical).1 != Some(entries[i].name@),
        forall|k: int|
            i < k < entries.len() ==> (#[trigger] entries[k]).name@ != entries[i].name@,
    ensures
        path_in(discovered(entries, cwd, canonical).0, entries[i].name@) == Some(entries[i].path@),
{
    lemma_subpackage(entries, i);
    lemma_subpackages_in_order(entries);
    let packages = subpackages(entries);
    if has_loose(entries) {
        law_registered_packages_are_found(
            packages,
            loose_name(packages, cwd, canonical),
            cwd,
            entries[i].name@,
        );
    }
}

proof fn lemma_subpackages_in_order(entries: Seq<DirEntry>)
    ensures
        is_registry(subpackages(entries)),
    decreases entries.len(),
{
    if entries.len() > 0 {
        lemma_subpackages_in_order(entries.drop_last());
        law_registries_stay_in_order(
            subpackages(entries.drop_last()),
            entries.last().name@,
            entries.last().path@,
        );
    }
}

proof fn lemma_subpackage(entries: Seq<DirEntry>, i: int)
    requires
        0 <= i < entries.len(),
        is_package(entries[i]),
        forall|k: int|
            i < k < entries.len() ==> (#[trigger] entries[k]).name@ != entries[i].name@,
    ensures
        path_in(subpackages(entries), entries[i].name@) == Some(entries[i].path@),
    decreases entries.len(),
{
    let rest = entries.drop_last();
    let e = entries.last();
    lemma_subpackages_in_order(rest);
    if i == entries.len() - 1 {
        law_registered_packages_are_found(subpackages(rest), e.name@, e.path@, e.name@);
    } else {
        assert forall|k: int| i < k < rest.len() implies (#[trigger] rest[k]).name@
            != rest[i].name@ by {
            assert(rest[k] == entries[k]);
        }
        lemma_subpackage(rest, i);
        assert(entries[entries.len() - 1].name@ != entries[i].name@);
        if is_package(e) {
            law_registered_packages_are_found(
                subpackages(rest),
                e.name@,
                e.path@,
                entries[i].name@,
            );
        }
    }
}

/// The exit code is 2 where there is an error, 1 where there is a warning and no error, and 0
/// elsewhere.
pub proof fn law_exit_codes_tell_the_worst_finding(issues: Seq<IssueView>)
    ensures
        code_for(issues) == 2 <==> exists|i: int|
            0 <= i < issues.len() && (#[trigger] issues[i]).severity == Severity::Error,
        code_for(issues) == 1 <==> (exists|i: int|
            0 <= i < issues.len() && (#[trigger] issues[i]).severity == Severity::Warning) && !(
        exists|i: int|
            0 <= i < issues.len() && (#[trigger] issues[i]).severity == Severity::Error),
        code_for(issues) == 0 || code_for(issues) == 1 || code_for(issues) == 2,
{
    law_counted_severities_occur(issues, Severity::Error);
    law_counted_severities_occur(issues, Severity::Warning);
}

/// A severity as a filter keeps a finding exactly where it is at least as severe.
pub proof fn law_filter_keeps_by_severity(issues: Seq<IssueView>, min: Severity, x: IssueView)
    ensures
        issues.flat_map(if_severe(rank(min.word()))).contains(x) <==> issues.contains(x) && (min
            == Severity::Info || x.severity == Severity::Error || (min == Severity::Warning
            && x.severity == Severity::Warning)),
{
    lemma_ranks();
    let f = if_severe(rank(min.word()));
    lemma_flat_map_contains(issues, f, x);
    if issues.flat_map(f).contains(x) {
        let i = choose|i: int| 0 <= i < issues.len() && f(#[trigger] issues[i]).contains(x);
        assert(issues[i] == x);
    }
    if issues.contains(x) && rank(x.severity.word()) >= rank(min.word()) {
        let i = issues.index_of(x);
        assert(f(issues[i])[0] == x);
        assert(f(issues[i]).contains(x));
    }
}

/// An entry names the package before its first `=`, and its path behind that, as seen from the
/// current directory; an entry without `=` names none.
pub proof fn law_entries_are_parted_at_the_first_sign(
    name: Seq<char>,
    path: Seq<char>,
    cwd: Seq<char>,
)
    requires
        !name.contains('='),
    ensures
        named_package(name + seq!['='] + path, cwd) == Some(
            (trim(name), join_path(cwd, trim(path))),
        ),
        named_package(name, cwd) is None,
{
    lemma_first_place(name, path);
    let entry = name + seq!['='] + path;
    assert(entry.take(name.len() as int) =~= name);
    assert(entry.skip((name.len() + 1) as int) =~= path);
}

proof fn lemma_first_place(name: Seq<char>, path: Seq<char>)
    requires
        !name.contains('='),
    ensures
        first_place(name + seq!['='] + path, '=') == name.len(),
        first_place(name, '=') == name.len(),
    decreases name.len(),
{
    let entry = name + seq!['='] + path;
    if name.len() > 0 {
        let rest = name.skip(1);
        if rest.contains('=') {
            let i = rest.index_of('=');
            assert(name[i + 1] == '=');
        }
        assert(name[0] != '=') by {
            assert(name.contains(name[0]));
        }
        lemma_first_place(rest, path);
        assert(entry.skip(1) =~= rest + seq!['='] + path);
    }
}

/// The packages that are asked for are scanned, in the order in which they are asked for, where
/// all of them are registered; one that is not is an error, and so is an empty registry.
/// Without a request all registered packages are scanned.
pub proof fn law_selected_packages_are_registered(
    registry: Seq<(Seq<char>, Seq<char>)>,
    names: Seq<Seq<char>>,
)
    ensures
        registry.len() == 0 ==> selection(registry, Some(names)) is Err && selection(
            registry,
            None,
        ) is Err,
        registry.len() > 0 && (forall|i: int|
            0 <= i < names.len() ==> path_in(registry, #[trigger] names[i]) is Some) ==> selection(
            registry,
            Some(names),
        ) == Ok::<Seq<Seq<char>>, Seq<char>>(names),
        registry.len() > 0 && (exists|i: int|
            0 <= i < names.len() && path_in(registry, #[trigger] names[i]) is None) ==> selection(
            registry,
            Some(names),
        ) is Err,
        registry.len() > 0 ==> selection(registry, None) == Ok::<Seq<Seq<char>>, Seq<char>>(
            names_in(registry),
        ),
{
    let f = if_unknown(registry);
    lemma_none_unknown(registry, names);
    let all = names_in(registry);
    assert forall|i: int| 0 <= i < all.len() implies path_in(registry, #[trigger] all[i]) is Some by {
        lemma_named_is_registered(registry, i);
    }
    lemma_none_unknown(registry, all);
}

proof fn lemma_named_is_registered(registry: Seq<(Seq<char>, Seq<char>)>, i: int)
    requires
        0 <= i < registry.len(),
    ensures
        path_in(registry, registry[i].0) is Some,
    decreases registry.len(),
{
    if i < registry.len() - 1 {
        assert(registry.drop_last()[i] == registry[i]);
        lemma_named_is_registered(registry.drop_last(), i);
    }
}

proof fn lemma_none_unknown(registry: Seq<(Seq<char>, Seq<char>)>, names: Seq<Seq<char>>)
    ensures
        names.flat_map(if_unknown(registry)).len() == 0 <==> forall|i: int|
            0 <= i < names.len() ==> path_in(registry, #[trigger] names[i]) is Some,
{
    let f = if_unknown(registry);
    let unknown = names.flat_map(f);
    if exists|i: int| 0 <= i < names.len() && path_in(registry, #[trigger] names[i]) is None {
        let i = choose|i: int| 0 <= i < names.len() && path_in(registry, #[trigger] names[i]) is None;
        assert(f(names[i])[0] == names[i]);
        assert(f(names[i]).contains(names[i]));
        lemma_flat_map_contains(names, f, names[i]);
        assert(unknown.contains(names[i]));
    }
    if unknown.len() > 0 {
        let x = unknown[0];
        assert(unknown.contains(x));
        lemma_flat_map_contains(names, f, x);
        let i = choose|i: int| 0 <= i < names.len() && f(#[trigger] names[i]).contains(x);
        assert(path_in(registry, names[i]) is None);
    }
}

/// There is a message on missing packages exactly where the path of one does not exist.
pub proof fn law_missing_packages_are_told(packages: Seq<(Seq<char>, Seq<char>, bool)>)
    ensures
        missing(packages) is None <==> forall|i: int|
            0 <= i < packages.len() ==> (#[trigger] packages[i]).2,
{
    let f = if_missing();
    let gone = packages.flat_map(f);
    if exists|i: int| 0 <= i < packages.len() && !(#[trigger] packages[i]).2 {
        let i = choose|i: int| 0 <= i < packages.len() && !(#[trigger] packages[i]).2;
        let x = f(packages[i])[0];
        assert(f(packages[i]).contains(x));
        lemma_flat_map_contains(packages, f, x);
        assert(gone.contains(x));
    }
    if gone.len() > 0 {
        let x = gone[0];
        assert(gone.contains(x));
        lemma_flat_map_contains(packages, f, x);
        let i = choose|i: int| 0 <= i < packages.len() && f(#[trigger] packages[i]).contains(x);
        assert(!packages[i].2);
    }
}

/// Which directories are passed over: hidden ones, caches, builds and what was installed.
pub proof fn law_noise_is_passed_over(name: Seq<char>, rest: Seq<char>, e: DirEntry)
    requires
        e.name@ == name,
    ensures
        name == seq!['.'] + rest || name == "__pycache__"@ || name == "node_modules"@ || name
            == "build"@ || name == "dist"@ || name == "site-packages"@ || name == rest
            + ".egg-info"@ ==> !is_package(e),
        e.is_dir && e.has_python && (name.len() == 0 || name[0] != '.') && name != "__pycache__"@
            && name != "node_modules"@ && name != "build"@ && name != "dist"@ && name
            != "site-packages"@ && !".egg-info"@.is_suffix_of(name) ==> is_package(e),
        !e.is_dir || !e.has_python ==> !is_package(e),
{
    if name == rest + ".egg-info"@ {
        assert(name.skip(rest.len() as int) =~= ".egg-info"@);
    }
}

proof fn lemma_named_in_order(entries: Seq<Seq<char>>, cwd: Seq<char>)
    ensures
        named_packages(entries, cwd) matches Ok(s) ==> is_registry(s),
    decreases entries.len(),
{
    if entries.len() > 0 {
        lemma_named_in_order(entries.drop_last(), cwd);
        if let Ok(s) = named_packages(entries.drop_last(), cwd) {
            if let Some(p) = named_package(entries.last(), cwd) {
                law_registries_stay_in_order(s, p.0, p.1);
            }
        }
    }
}

/// A further entry registers its package: the name before the first `=`, the path behind it. An
/// entry without `=` is what is wrong; entries behind it are not looked at.
pub proof fn law_entries_register_packages(
    entries: Seq<Seq<char>>,
    name: Seq<char>,
    path: Seq<char>,
    cwd: Seq<char>,
    other: Seq<char>,
)
    requires
        !name.contains('='),
    ensures
        match named_packages(entries, cwd) {
            Ok(s) => {
                &&& named_packages(entries.push(name), cwd) == Err::<
                    Seq<(Seq<char>, Seq<char>)>,
                    Seq<char>,
                >(name)
                &&& named_packages(entries.push(name + seq!['='] + path), cwd) is Ok
                &&& path_in(
                    named_packages(entries.push(name + seq!['='] + path), cwd)->Ok_0,
                    other,
                ) == if other == trim(name) {
                    Some(join_path(cwd, trim(path)))
                } else {
                    path_in(s, other)
                }
            },
            Err(bad) => named_packages(entries.push(name), cwd) == Err::<
                Seq<(Seq<char>, Seq<char>)>,
                Seq<char>,
            >(bad) && named_packages(entries.push(name + seq!['='] + path), cwd) == Err::<
                Seq<(Seq<char>, Seq<char>)>,
                Seq<char>,
            >(bad),
        },
        named_packages(seq![], cwd) == Ok::<Seq<(Seq<char>, Seq<char>)>, Seq<char>>(seq![]),
{
    let entry = name + seq!['='] + path;
    law_entries_are_parted_at_the_first_sign(name, path, cwd);
    assert(entries.push(entry).drop_last() =~= entries);
    assert(entries.push(name).drop_last() =~= entries);
    lemma_named_in_order(entries, cwd);
    if let Ok(s) = named_packages(entries, cwd) {
        law_registered_packages_are_found(s, trim(name), join_path(cwd, trim(path)), other);
    }
}

proof fn lemma_configured_in_order(
    pairs: Seq<(Option<Seq<char>>, Option<Seq<char>>)>,
    base: Seq<char>,
)
    ensures
        is_registry(configured(pairs, base)),
    decreases pairs.len(),
{
    if pairs.len() > 0 {
        let rest = pairs.drop_last();
        lemma_configured_in_order(rest, base);
        law_registries_stay_in_order(
            configured(rest, base),
            or_empty(pairs.last().0),
            join_path(base, or_empty(pairs.last().1)),
        );
    }
}

/// A configuration file registers its pairs, of several with a name the last, with their paths
/// as seen from its directory; what is no string counts as an empty one. A file that is no YAML
/// or has no mapping of packages is an error.
pub proof fn law_configured_packages_are_registered(
    pairs: Seq<(Option<Seq<char>>, Option<Seq<char>>)>,
    name: Seq<char>,
    path: Seq<char>,
    base: Seq<char>,
    other: Seq<char>,
    words: Seq<char>,
)
    ensures
        path_in(configured(pairs.push((Some(name), Some(path))), base), other) == if other
            == name {
            Some(join_path(base, path))
        } else {
            path_in(configured(pairs, base), other)
        },
        configured(pairs.push((None, None)), base) == configured(
            pairs.push((Some(seq![]), Some(seq![]))),
            base,
        ),
        configured(pairs.push((Some(name), None)), base) == configured(
            pairs.push((Some(name), Some(seq![]))),
            base,
        ),
        configured(seq![], base).len() == 0,
        packages_of(Ok(Some(pairs)), base) == Ok::<Seq<(Seq<char>, Seq<char>)>, ConfigErrorView>(
            configured(pairs, base),
        ),
        packages_of(Ok(None), base) == Err::<Seq<(Seq<char>, Seq<char>)>, ConfigErrorView>(
            ConfigErrorView::NoPackages,
        ),
        packages_of(Err(words), base) == Err::<Seq<(Seq<char>, Seq<char>)>, ConfigErrorView>(
            ConfigErrorView::Malformed(words),
        ),
{
    assert(pairs.push((Some(name), Some(path))).drop_last() =~= pairs);
    assert(pairs.push((None, None)).drop_last() =~= pairs);
    assert(pairs.push((Some(seq![]), Some(seq![]))).drop_last() =~= pairs);
    assert(pairs.push((Some(name), None)).drop_last() =~= pairs);
    assert(pairs.push((Some(name), Some(seq![]))).drop_last() =~= pairs);
    lemma_configured_in_order(pairs, base);
    law_registered_packages_are_found(configured(pairs, base), name, join_path(base, path), other);
}

/// A further result adds its findings behind the others and its counts to theirs.
pub proof fn law_results_add_up(results: Seq<ResultView>, r: ResultView)
    ensures
        ({
            let before = total_of(results);
            let after = total_of(results.push(r));
            &&& after.issues == before.issues + r.issues
            &&& after.ignored == before.ignored + r.ignored
            &&& after.files_scanned == before.files_scanned + r.files_scanned
            &&& after.functions_scanned == before.functions_scanned + r.functions_scanned
            &&& after.total_lines == before.total_lines + r.total_lines
            &&& after.suppressed == before.suppressed + r.suppressed
        }),
        total_of(seq![]).issues.len() == 0 && total_of(seq![]).ignored.len() == 0 && total_of(
            seq![],
        ).files_scanned == 0 && total_of(seq![]).functions_scanned == 0 && total_of(
            seq![],
        ).total_lines == 0 && total_of(seq![]).suppressed == 0,
{
    assert(results.push(r).drop_last() =~= results);
}

/// A bare run looks neither into caches and the like nor into what is excluded on request.
pub proof fn law_bare_runs_leave_out_caches(
    entries: Seq<DirEntry>,
    cwd: Seq<char>,
    canonical: Seq<char>,
    exclude: Seq<Seq<char>>,
    name: Seq<char>,
    least: nat,
    similarity: Ratio,
    root: Seq<char>,
    path: Seq<char>,
    text: Seq<char>,
)
    requires
        exclude.contains(text) || text == "/.venv/"@ || text == "/venv/"@ || text == "/.git/"@
            || text == "/__pycache__/"@ || text == "/node_modules/"@ || text == "/build/"@ || text
            == "/dist/"@ || text == ".egg-info"@ || text == "/.mypy_cache/"@ || text
            == "/.pytest_cache/"@ || text == "/.ruff_cache/"@ || text == "/.tox/"@ || text
            == "/site-packages/"@,
        crate::text::occurs(text, path),
    ensures
        !is_scanned(
            root,
            path,
            settings(bare_run(entries, cwd, canonical, exclude), name, least, similarity),
        ),
{
    let all = exclude + cwd_excludes();
    let n = exclude.len() as int;
    if exclude.contains(text) {
        let i = exclude.index_of(text);
        assert(all[i] == text);
    } else {
        let usual = cwd_excludes();
        assert(usual[0] == "/.venv/"@ && usual[1] == "/venv/"@ && usual[2] == "/.git/"@);
        assert(usual[3] == "/__pycache__/"@ && usual[4] == "/node_modules/"@);
        assert(usual[5] == "/build/"@ && usual[6] == "/dist/"@ && usual[7] == ".egg-info"@);
        assert(usual[8] == "/.mypy_cache/"@ && usual[9] == "/.pytest_cache/"@);
        assert(usual[10] == "/.ruff_cache/"@ && usual[11] == "/.tox/"@);
        assert(usual[12] == "/site-packages/"@);
        let i = usual.index_of(text);
        assert(all[n + i] == text);
    }
}

/// A package is scanned with the settings that are asked for, and with its subdirectories unless
/// it is the one that holds the files of the directory itself.
pub proof fn law_packages_are_scanned_as_asked(
    plan: RunPlanView,
    name: Seq<char>,
    least: nat,
    similarity: Ratio,
)
    ensures
        ({
            let c = settings(plan, name, least, similarity);
            &&& c.min_duplicate_lines == least
            &&& c.twin_similarity == similarity
            &&& c.exclude == plan.exclude
            &&& plan.loose_root is None ==> c.recursive
            &&& plan.loose_root matches Some(loose) ==> (c.recursive <==> loose != name)
        }),
{
}

/// The files of a directory are a package under the name of the directory, which is told apart
/// from a subdirectory of the same name.
pub proof fn law_loose_files_are_a_package(
    entries: Seq<DirEntry>,
    cwd: Seq<char>,
    canonical: Seq<char>,
    i: int,
)
    requires
        0 <= i < entries.len(),
        !entries[i].is_dir,
        is_python_path(entries[i].path@),
        file_name(canonical) is Some,
    ensures
        ({
            let (packages, loose) = discovered(entries, cwd, canonical);
            let base = file_name(canonical)->Some_0;
            &&& loose == Some(base) || loose == Some(base + " (root)"@)
            &&& loose == Some(base + " (root)"@) <==> path_in(subpackages(entries), base) is Some
            &&& path_in(packages, loose->Some_0) == Some(cwd)
        }),
{
    let packages = subpackages(entries);
    let base = file_name(canonical)->Some_0;
    let name = loose_name(packages, cwd, canonical);
    assert(is_loose(entries[i]));
    lemma_subpackages_in_order(entries);
    law_registered_packages_are_found(packages, name, cwd, name);
    reveal_strlit(" (root)");
    assert(base.len() != (base + " (root)"@).len());
}

} // verus!
