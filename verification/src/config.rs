//! Thresholds, package registries and the rules that depend on a package's name.

use crate::models::Ratio;
use crate::paths::{join_path, joined_path};
use crate::text::{ends_with, same, starts_with};
use vstd::prelude::*;
use vstd::string::*;

verus! {

// ── Thresholds ──────────────────────────────────────────────────────────────

pub const MAX_FUNCTION_LINES: usize = 50;

pub const MAX_FILE_LINES: usize = 400;

pub const MAX_FUNC_PARAMS: usize = 6;

pub const MAX_RETURNS: usize = 3;

pub const MAX_NESTING_DEPTH: usize = 5;

pub const COMPLEXITY_THRESHOLD: usize = 10;

pub const MIN_BOOLEAN_FLAGS: usize = 3;

pub const MAX_DECORATORS: usize = 3;

/// From how many methods on a class has too many.
pub const MAX_CLASS_METHODS: usize = 25;

pub const MAX_CLASS_ATTRS: usize = 20;

/// How many ancestors a class may have.
pub const MAX_INHERITANCE_DEPTH: usize = 4;

pub const MAX_MESSAGE_CHAIN_DEPTH: i64 = 3;

pub const DEFAULT_MIN_DUPLICATE_LINES: usize = 5;

pub const DEFAULT_TOP_FILES: usize = 5;

pub const DEFAULT_PLAN_TOP: usize = 20;

pub const MIN_TWIN_FUNCTION_LINES: usize = 4;

pub const MAX_PUBLIC_SYMBOLS: usize = 15;

pub const MIN_CLASS_METHODS: usize = 2;

/// The sum of its methods' complexities at which a class that has few methods and
/// attributes is still too much.
pub const MAX_CLASS_WMC: i64 = 50;

/// By how many modules a hub is imported at most.
pub const MAX_MODULE_FAN_IN: usize = 8;

/// How many modules a hub imports at most.
pub const MAX_MODULE_FAN_OUT: usize = 8;

/// A rule whose finding exceeds its threshold by half again reports an error in
/// place of a warning: `ESCALATION_NUMERATOR / ESCALATION_DENOMINATOR` times the
/// threshold.
pub const ESCALATION_NUMERATOR: usize = 3;

pub const ESCALATION_DENOMINATOR: usize = 2;

/// How similar two functions are at least, by default, to count as twins.
pub open spec fn usual_twin_similarity() -> Ratio {
    Ratio { numerator: 3, denominator: 5 }
}

/// How similar two functions are at least, by default, to count as twins.
pub fn default_twin_similarity() -> (r: Ratio)
    ensures
        r == usual_twin_similarity(),
{
    Ratio { numerator: 3, denominator: 5 }
}

/// The width of the rules around a report's headings.
pub const BANNER_WIDTH: usize = 72;

/// Whether `n` exceeds its threshold so far that its finding is an error.
pub open spec fn escalates(n: int, threshold: int) -> bool {
    ESCALATION_DENOMINATOR * n > ESCALATION_NUMERATOR * threshold
}

// ── Patterns ────────────────────────────────────────────────────────────────

/// A comment with a marker for unfinished work; its first group is the marker.
pub const TODO_RE: &'static str = r"#.*\b(TODO|FIXME|XXX|HACK)\b";

/// A suppression comment; its first group lists the rules, its second gives the
/// reason.
pub const SUPPRESS_MARKER_RE: &'static str =
    r"#\s*spaghetti-ignore(?:\[([^\]]*)\])?(?:\s*:\s*(.*))?";

// ── Workspaces ──────────────────────────────────────────────────────────────

/// Whether a TOML text is a table that has a value under three nested keys.
pub uninterp spec fn toml_has(
    text: Seq<char>,
    outer: Seq<char>,
    middle: Seq<char>,
    inner: Seq<char>,
) -> bool;

/// `toml::Table::from_str`, and `get` on the table and on the values in it: whether the
/// text parses and there is a value under the three keys, one in the other. A text
/// that does not parse has none.
#[verifier::external_body]
pub(crate) fn has_toml_value(text: &str, outer: &str, middle: &str, inner: &str) -> (r: bool)
    ensures
        r == toml_has(text@, outer@, middle@, inner@),
{
    match text.parse::<toml::Table>() {
        Ok(table) => table.get(outer).and_then(|v| v.get(middle)).and_then(
            |v| v.get(inner),
        ).is_some(),
        Err(_) => false,
    }
}

/// A directory and the text of its `pyproject.toml`, if that could be read.
pub struct ProjectDir {
    pub path: String,
    pub pyproject: Option<String>,
}

/// Whether a project file declares a uv workspace.
pub open spec fn declares_workspace(pyproject: Option<Seq<char>>) -> bool {
    match pyproject {
        Some(text) => toml_has(text, "tool"@, "uv"@, "workspace"@),
        None => false,
    }
}

/// The first directory that is a workspace.
pub open spec fn first_workspace(dirs: Seq<(Seq<char>, bool)>) -> Option<Seq<char>>
    decreases dirs.len(),
{
    if dirs.len() == 0 {
        None
    } else if dirs[0].1 {
        Some(dirs[0].0)
    } else {
        first_workspace(dirs.skip(1))
    }
}

/// Directories, and whether each declares a workspace.
pub open spec fn project_views(v: Seq<ProjectDir>) -> Seq<(Seq<char>, bool)> {
    v.map_values(
        |d: ProjectDir| (d.path@, declares_workspace(crate::models::opt_text(d.pyproject))),
    )
}

/// Directories, each with whether it declares a workspace.
pub open spec fn flagged(dirs: Seq<ProjectDir>, declared: Seq<bool>) -> Seq<(Seq<char>, bool)> {
    dirs.map(|i: int, d: ProjectDir| (d.path@, declared[i]))
}

/// The first of a list of directories that declares a workspace.
pub fn nearest_workspace<'a>(dirs: &'a Vec<ProjectDir>, declared: &Vec<bool>) -> (r: Option<
    &'a str,
>)
    requires
        dirs@.len() == declared@.len(),
    ensures
        crate::models::opt_str(r) == first_workspace(flagged(dirs@, declared@)),
{
    let ghost all = flagged(dirs@, declared@);
    let mut i: usize = 0;
    assert(all.skip(0) =~= all);
    while i < dirs.len()
        invariant
            i <= dirs@.len() == declared@.len(),
            all == flagged(dirs@, declared@),
            first_workspace(all) == first_workspace(all.skip(i as int)),
        decreases dirs@.len() - i,
    {
        proof {
            assert(all.skip(i as int)[0] == all[i as int]);
            assert(all.skip(i as int).skip(1) =~= all.skip(i + 1));
        }
        if declared[i] {
            return Some(dirs[i].path.as_str());
        }
        i += 1;
    }
    None
}

/// The first of a list of directories that declares the uv workspace. The list goes
/// from a directory upward; unreadable and malformed project files are passed over.
pub fn find_workspace_root(dirs: &Vec<ProjectDir>) -> (r: Option<&str>)
    ensures
        crate::models::opt_str(r) == first_workspace(project_views(dirs@)),
{
    let mut declared: Vec<bool> = Vec::new();
    while declared.len() < dirs.len()
        invariant
            declared@.len() <= dirs@.len(),
            forall|k: int|
                0 <= k < declared@.len() ==> #[trigger] declared@[k] == declares_workspace(
                    crate::models::opt_text(dirs@[k].pyproject),
                ),
        decreases dirs@.len() - declared@.len(),
    {
        let found = match &dirs[declared.len()].pyproject {
            Some(text) => has_toml_value(text.as_str(), "tool", "uv", "workspace"),
            None => false,
        };
        declared.push(found);
    }
    assert(flagged(dirs@, declared@) =~= project_views(dirs@));
    nearest_workspace(dirs, &declared)
}

/// The workspace nearest to the start is the one that counts.
pub proof fn law_nearest_workspace_counts(dirs: Seq<(Seq<char>, bool)>, i: int)
    requires
        0 <= i < dirs.len(),
        dirs[i].1,
        forall|k: int| 0 <= k < i ==> !(#[trigger] dirs[k]).1,
    ensures
        first_workspace(dirs) == Some(dirs[i].0),
    decreases dirs.len(),
{
    if i > 0 {
        let rest = dirs.skip(1);
        assert(!dirs[0].1);
        assert forall|k: int| 0 <= k < i - 1 implies !(#[trigger] rest[k]).1 by {
            assert(rest[k] == dirs[k + 1]);
        }
        law_nearest_workspace_counts(rest, i - 1);
    }
}

// ── Packages ────────────────────────────────────────────────────────────────

/// A registry of packages: names and the paths they stand for.
pub open spec fn registry_views(v: Seq<(String, String)>) -> Seq<(Seq<char>, Seq<char>)> {
    v.map_values(|p: (String, String)| (p.0@, p.1@))
}

/// The packages of a workspace that is laid out in the usual way, by name.
pub open spec fn usual_packages(workspace_root: Option<Seq<char>>) -> Seq<(Seq<char>, Seq<char>)> {
    match workspace_root {
        Some(root) => seq![
            ("boti"@, join_path(root, "boti/src/boti"@)),
            ("boti-dask"@, join_path(root, "boti-dask/src/boti_dask"@)),
            ("boti-data"@, join_path(root, "boti-data/src/boti_data"@)),
            ("spaghetti"@, join_path(root, "spaghetti/src/spaghetti"@)),
        ],
        None => seq![],
    }
}

/// The packages of a workspace that is laid out in the usual way, by name.
pub fn default_packages(workspace_root: Option<&str>) -> (r: Vec<(String, String)>)
    ensures
        registry_views(r@) == usual_packages(crate::models::opt_str(workspace_root)),
{
    let mut out: Vec<(String, String)> = Vec::new();
    if let Some(root) = workspace_root {
        out.push(("boti".to_owned(), joined_path(root, "boti/src/boti")));
        out.push(("boti-dask".to_owned(), joined_path(root, "boti-dask/src/boti_dask")));
        out.push(("boti-data".to_owned(), joined_path(root, "boti-data/src/boti_data")));
        out.push(("spaghetti".to_owned(), joined_path(root, "spaghetti/src/spaghetti")));
    }
    assert(registry_views(out@) =~= usual_packages(crate::models::opt_str(workspace_root)));
    out
}

/// The beginning of the dotted names of a package's own modules.
pub open spec fn own_prefix(pkg: Seq<char>) -> Option<Seq<char>> {
    if pkg == "etl-core"@ {
        Some("etl_core."@)
    } else if pkg == "etl-demo"@ {
        Some("etl_demo."@)
    } else if pkg == "boti-data"@ {
        Some("boti_data."@)
    } else if pkg == "boti-dask"@ {
        Some("boti_dask."@)
    } else if pkg == "boti"@ {
        Some("boti."@)
    } else {
        None
    }
}

/// The beginning of the dotted names of a package's own modules.
pub fn allowed_import_prefix(pkg: &str) -> (r: Option<&'static str>)
    ensures
        match r {
            Some(t) => own_prefix(pkg@) == Some(t@),
            None => own_prefix(pkg@) is None,
        },
{
    if same(pkg, "etl-core") {
        Some("etl_core.")
    } else if same(pkg, "etl-demo") {
        Some("etl_demo.")
    } else if same(pkg, "boti-data") {
        Some("boti_data.")
    } else if same(pkg, "boti-dask") {
        Some("boti_dask.")
    } else if same(pkg, "boti") {
        Some("boti.")
    } else {
        None
    }
}

// ── Layers ──────────────────────────────────────────────────────────────────

/// What files under a path prefix must not import: the beginnings of the names.
pub struct LayerRule {
    pub prefix: &'static str,
    pub forbidden: Vec<&'static str>,
}

/// What a list of string slices holds.
pub open spec fn slices(v: Seq<&'static str>) -> Seq<Seq<char>> {
    v.map_values(|s: &'static str| s@)
}

/// What a list of layer rules says: path prefixes and forbidden imports.
pub open spec fn layer_views(v: Seq<LayerRule>) -> Seq<(Seq<char>, Seq<Seq<char>>)> {
    v.map_values(|r: LayerRule| (r.prefix@, slices(r.forbidden@)))
}

/// The layer rules of a package.
pub open spec fn layers(pkg: Seq<char>) -> Seq<(Seq<char>, Seq<Seq<char>>)> {
    if pkg == "etl-demo"@ {
        seq![("routes/"@, seq!["boti_data."@, "boti."@, "boti_dask."@])]
    } else if pkg == "etl-core"@ {
        seq![(""@, seq!["fastapi"@, "starlette"@, "httpx"@])]
    } else {
        seq![]
    }
}

/// The layer rules of a package.
pub fn layer_rules(pkg: &str) -> (r: Vec<LayerRule>)
    ensures
        layer_views(r@) == layers(pkg@),
{
    let mut out: Vec<LayerRule> = Vec::new();
    if same(pkg, "etl-demo") {
        let forbidden: Vec<&'static str> = vec!["boti_data.", "boti.", "boti_dask."];
        assert(slices(forbidden@) =~= seq!["boti_data."@, "boti."@, "boti_dask."@]);
        out.push(LayerRule { prefix: "routes/", forbidden });
    } else if same(pkg, "etl-core") {
        let forbidden: Vec<&'static str> = vec!["fastapi", "starlette", "httpx"];
        assert(slices(forbidden@) =~= seq!["fastapi"@, "starlette"@, "httpx"@]);
        out.push(LayerRule { prefix: "", forbidden });
    }
    assert(layer_views(out@) =~= layers(pkg@));
    out
}

// ── Names ───────────────────────────────────────────────────────────────────

/// Whether a name is one of Python's special names: two underscores, anything, two
/// underscores.
pub open spec fn dunder(name: Seq<char>) -> bool {
    name.len() >= 4 && "__"@.is_prefix_of(name) && "__"@.is_suffix_of(name)
}

/// Whether a name is one of Python's special names.
pub fn is_dunder(name: &str) -> (r: bool)
    ensures
        r == dunder(name@),
{
    name.unicode_len() >= 4 && starts_with(name, "__") && ends_with(name, "__")
}

/// A name in which underscores stand for hyphens.
pub open spec fn underscored(name: Seq<char>) -> Seq<char> {
    name.map_values(
        |c: char|
            if c == '-' {
                '_'
            } else {
                c
            },
    )
}

proof fn lemma_underscored()
    ensures
        underscored("etl-core"@).push('.') == "etl_core."@,
        underscored("etl-demo"@).push('.') == "etl_demo."@,
        underscored("boti-data"@).push('.') == "boti_data."@,
        underscored("boti-dask"@).push('.') == "boti_dask."@,
        underscored("boti"@).push('.') == "boti."@,
{
    reveal_strlit("etl-core");
    reveal_strlit("etl_core.");
    reveal_strlit("etl-demo");
    reveal_strlit("etl_demo.");
    reveal_strlit("boti-data");
    reveal_strlit("boti_data.");
    reveal_strlit("boti-dask");
    reveal_strlit("boti_dask.");
    reveal_strlit("boti");
    reveal_strlit("boti.");
    assert(underscored("etl-core"@).push('.') =~= "etl_core."@);
    assert(underscored("etl-demo"@).push('.') =~= "etl_demo."@);
    assert(underscored("boti-data"@).push('.') =~= "boti_data."@);
    assert(underscored("boti-dask"@).push('.') =~= "boti_dask."@);
    assert(underscored("boti"@).push('.') =~= "boti."@);
}

/// The modules of a package are named after it, with underscores for hyphens and a dot behind;
/// five packages are known.
pub proof fn law_own_modules_are_named_after_the_package(pkg: Seq<char>)
    ensures
        own_prefix(pkg) matches Some(prefix) ==> prefix == underscored(pkg).push('.'),
        own_prefix(pkg) is Some <==> pkg == "etl-core"@ || pkg == "etl-demo"@ || pkg
            == "boti-data"@ || pkg == "boti-dask"@ || pkg == "boti"@,
{
    lemma_underscored();
}

/// A usual package lies in a directory of its own, below `src`, under its name with underscores
/// for hyphens; four packages are usual.
pub proof fn law_usual_packages_lie_below_the_workspace(root: Seq<char>, i: int)
    requires
        0 <= i < usual_packages(Some(root)).len(),
    ensures
        ({
            let (name, path) = usual_packages(Some(root))[i];
            path == join_path(root, name + "/src/"@ + underscored(name))
        }),
        usual_packages(Some(root)).map_values(|p: (Seq<char>, Seq<char>)| p.0) == seq![
            "boti"@,
            "boti-dask"@,
            "boti-data"@,
            "spaghetti"@,
        ],
        usual_packages(None).len() == 0,
{
    reveal_strlit("boti");
    reveal_strlit("boti/src/boti");
    reveal_strlit("boti-dask");
    reveal_strlit("boti-dask/src/boti_dask");
    reveal_strlit("boti-data");
    reveal_strlit("boti-data/src/boti_data");
    reveal_strlit("spaghetti");
    reveal_strlit("spaghetti/src/spaghetti");
    reveal_strlit("/src/");
    assert("boti/src/boti"@ =~= "boti"@ + "/src/"@ + underscored("boti"@));
    assert("boti-dask/src/boti_dask"@ =~= "boti-dask"@ + "/src/"@ + underscored("boti-dask"@));
    assert("boti-data/src/boti_data"@ =~= "boti-data"@ + "/src/"@ + underscored("boti-data"@));
    assert("spaghetti/src/spaghetti"@ =~= "spaghetti"@ + "/src/"@ + underscored("spaghetti"@));
    assert(usual_packages(Some(root)).map_values(|p: (Seq<char>, Seq<char>)| p.0) =~= seq![
        "boti"@,
        "boti-dask"@,
        "boti-data"@,
        "spaghetti"@,
    ]);
}

/// The routes of `etl-demo` import nothing of the three `boti` packages; nothing in `etl-core`
/// imports a transport. Other packages have no layers.
pub proof fn law_layers_are_kept_apart(pkg: Seq<char>)
    ensures
        pkg == "etl-demo"@ ==> layers(pkg) == seq![
            ("routes/"@, seq!["boti_data."@, "boti."@, "boti_dask."@]),
        ],
        pkg == "etl-core"@ ==> layers(pkg) == seq![
            (""@, seq!["fastapi"@, "starlette"@, "httpx"@]),
        ],
        pkg != "etl-demo"@ && pkg != "etl-core"@ ==> layers(pkg).len() == 0,
{
    reveal_strlit("etl-demo");
    reveal_strlit("etl-core");
    assert("etl-demo"@[4] != "etl-core"@[4]);
}

/// A special name is one between two underscores before and two behind.
pub proof fn law_special_names_stand_between_underscores(inner: Seq<char>, name: Seq<char>)
    ensures
        dunder(seq!['_', '_'] + inner + seq!['_', '_']),
        dunder(name) ==> name.len() >= 4 && name == seq!['_', '_'] + name.subrange(
            2,
            name.len() - 2,
        ) + seq!['_', '_'],
{
    reveal_strlit("__");
    let made = seq!['_', '_'] + inner + seq!['_', '_'];
    assert(made.subrange(0, 2) =~= "__"@);
    assert(made.subrange(made.len() - 2, made.len() as int) =~= "__"@);
    if dunder(name) {
        assert(name.subrange(0, 2) =~= "__"@);
        assert(name.subrange(name.len() - 2, name.len() as int) =~= "__"@);
        assert(name[0] == name.subrange(0, 2)[0] && name[1] == name.subrange(0, 2)[1]);
        let end = name.subrange(name.len() - 2, name.len() as int);
        assert(name[name.len() - 2] == end[0] && name[name.len() - 1] == end[1]);
        assert(name =~= seq!['_', '_'] + name.subrange(2, name.len() - 2) + seq!['_', '_']);
    }
}

} // verus!
