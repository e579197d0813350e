//! Registries of packages: names and the paths they stand for, by name.

use crate::config::registry_views;
use crate::text::{
    lemma_text_le_antisymmetric, lemma_text_le_total, lemma_text_le_transitive, same, text_at_most,
    text_le, texts,
};
use vstd::prelude::*;
use vstd::string::*;

verus! {

/// A registry with one more package: a name that is there gets the new path, a new name
/// goes to its place in the order.
pub open spec fn registered(
    s: Seq<(Seq<char>, Seq<char>)>,
    name: Seq<char>,
    path: Seq<char>,
) -> Seq<(Seq<char>, Seq<char>)>
    decreases s.len(),
{
    if s.len() == 0 {
        seq![(name, path)]
    } else if s.last().0 == name {
        s.drop_last().push((name, path))
    } else if text_le(s.last().0, name) {
        s.push((name, path))
    } else {
        registered(s.drop_last(), name, path).push(s.last())
    }
}

/// A registry with more packages, the later of which win.
pub open spec fn registered_all(
    s: Seq<(Seq<char>, Seq<char>)>,
    more: Seq<(Seq<char>, Seq<char>)>,
) -> Seq<(Seq<char>, Seq<char>)>
    decreases more.len(),
{
    if more.len() == 0 {
        s
    } else {
        registered(registered_all(s, more.drop_last()), more.last().0, more.last().1)
    }
}

/// The path of a package.
pub open spec fn path_in(s: Seq<(Seq<char>, Seq<char>)>, name: Seq<char>) -> Option<Seq<char>>
    decreases s.len(),
{
    if s.len() == 0 {
        None
    } else if s.last().0 == name {
        Some(s.last().1)
    } else {
        path_in(s.drop_last(), name)
    }
}

/// The names of the packages.
pub open spec fn names_in(s: Seq<(Seq<char>, Seq<char>)>) -> Seq<Seq<char>> {
    s.map_values(|p: (Seq<char>, Seq<char>)| p.0)
}

/// Whether the names stand in order, each once.
pub open spec fn is_registry(s: Seq<(Seq<char>, Seq<char>)>) -> bool {
    forall|i: int, j: int|
        0 <= i < j < s.len() ==> text_le((#[trigger] s[i]).0, (#[trigger] s[j]).0) && s[i].0
            != s[j].0
}

proof fn lemma_registered_at(s: Seq<(Seq<char>, Seq<char>)>, name: Seq<char>, path: Seq<char>, p: int)
    requires
        0 <= p <= s.len(),
        forall|k: int|
            p <= k < s.len() ==> (#[trigger] s[k]).0 != name && !text_le(s[k].0, name),
        p > 0 ==> s[p - 1].0 == name || text_le(s[p - 1].0, name),
    ensures
        registered(s, name, path) == if p > 0 && s[p - 1].0 == name {
            s.update(p - 1, (name, path))
        } else {
            s.insert(p, (name, path))
        },
    decreases s.len(),
{
    let r = if p > 0 && s[p - 1].0 == name {
        s.update(p - 1, (name, path))
    } else {
        s.insert(p, (name, path))
    };
    if s.len() == 0 {
        assert(r =~= seq![(name, path)]);
    } else if p == s.len() {
        if s.last().0 == name {
            assert(r =~= s.drop_last().push((name, path)));
        } else {
            assert(r =~= s.push((name, path)));
        }
    } else {
        let rest = s.drop_last();
        assert(s[s.len() - 1].0 != name);
        assert forall|k: int| p <= k < rest.len() implies (#[trigger] rest[k]).0 != name
            && !text_le(rest[k].0, name) by {
            assert(rest[k] == s[k]);
        }
        lemma_registered_at(rest, name, path, p);
        assert(r =~= registered(rest, name, path).push(s.last()));
    }
}

/// Puts a package into a registry.
pub fn register(v: &mut Vec<(String, String)>, name: String, path: String)
    ensures
        registry_views(final(v)@) == registered(registry_views(old(v)@), name@, path@),
{
    let ghost all = registry_views(v@);
    let mut p: usize = v.len();
    while p > 0 && !same(v[p - 1].0.as_str(), name.as_str()) && !text_at_most(
        v[p - 1].0.as_str(),
        name.as_str(),
    )
        invariant
            p <= v@.len(),
            all == registry_views(v@),
            forall|k: int|
                p <= k < all.len() ==> (#[trigger] all[k]).0 != name@ && !text_le(all[k].0, name@),
        decreases p,
    {
        assert(all[p - 1] == (v@[p - 1].0@, v@[p - 1].1@));
        p -= 1;
    }
    proof {
        if p > 0 {
            assert(all[p - 1] == (v@[p - 1].0@, v@[p - 1].1@));
        }
        lemma_registered_at(all, name@, path@, p as int);
    }
    if p > 0 && same(v[p - 1].0.as_str(), name.as_str()) {
        v.set(p - 1, (name, path));
        assert(registry_views(v@) =~= all.update(p - 1, (name@, path@)));
    } else {
        v.insert(p, (name, path));
        assert(registry_views(v@) =~= all.insert(p as int, (name@, path@)));
    }
}

/// Puts packages into a registry, the later of which win.
pub fn register_all(v: &mut Vec<(String, String)>, more: &Vec<(String, String)>)
    ensures
        registry_views(final(v)@) == registered_all(
            registry_views(old(v)@),
            registry_views(more@),
        ),
{
    let ghost base = registry_views(v@);
    let ghost all = registry_views(more@);
    let mut i: usize = 0;
    while i < more.len()
        invariant
            i <= more@.len(),
            all == registry_views(more@),
            registry_views(v@) == registered_all(base, all.take(i as int)),
        decreases more@.len() - i,
    {
        proof {
            assert(all.take(i + 1).drop_last() =~= all.take(i as int));
            assert(all[i as int] == (more@[i as int].0@, more@[i as int].1@));
        }
        register(v, more[i].0.clone(), more[i].1.clone());
        i += 1;
    }
    assert(all.take(i as int) =~= all);
}

/// The path of a package.
pub fn find_path<'a>(v: &'a Vec<(String, String)>, name: &str) -> (r: Option<&'a str>)
    ensures
        crate::models::opt_str(r) == path_in(registry_views(v@), name@),
{
    let ghost all = registry_views(v@);
    let mut i: usize = v.len();
    assert(all.take(i as int) =~= all);
    while i > 0
        invariant
            i <= v@.len(),
            all == registry_views(v@),
            path_in(all, name@) == path_in(all.take(i as int), name@),
        decreases i,
    {
        assert(all.take(i as int).drop_last() =~= all.take(i - 1));
        i -= 1;
        assert(all[i as int] == (v@[i as int].0@, v@[i as int].1@));
        if same(v[i].0.as_str(), name) {
            return Some(v[i].1.as_str());
        }
    }
    None
}

/// The names of the packages.
pub fn list_names(v: &Vec<(String, String)>) -> (r: Vec<String>)
    ensures
        texts(r@) == names_in(registry_views(v@)),
{
    let ghost all = registry_views(v@);
    let mut out: Vec<String> = Vec::new();
    let mut i: usize = 0;
    while i < v.len()
        invariant
            i <= v@.len(),
            all == registry_views(v@),
            out@.len() == i,
            forall|k: int| 0 <= k < i ==> #[trigger] out@[k]@ == all[k].0,
        decreases v@.len() - i,
    {
        assert(all[i as int] == (v@[i as int].0@, v@[i as int].1@));
        out.push(v[i].0.clone());
        i += 1;
    }
    assert(texts(out@) =~= names_in(all));
    out
}

// ── Laws ────────────────────────────────────────────────────────────────────

proof fn lemma_names_kept(
    s: Seq<(Seq<char>, Seq<char>)>,
    name: Seq<char>,
    path: Seq<char>,
    i: int,
)
    requires
        0 <= i < registered(s, name, path).len(),
    ensures
        registered(s, name, path)[i].0 == name || (exists|k: int|
            0 <= k < s.len() && #[trigger] s[k] == registered(s, name, path)[i]),
    decreases s.len(),
{
    let r = registered(s, name, path);
    if s.len() > 0 {
        if s.last().0 == name || text_le(s.last().0, name) {
            if i < s.len() && r[i].0 != name {
                assert(s[i] == r[i]);
            }
        } else {
            let rest = s.drop_last();
            if i < registered(rest, name, path).len() {
                lemma_names_kept(rest, name, path, i);
                if registered(rest, name, path)[i].0 != name {
                    let k = choose|k: int|
                        0 <= k < rest.len() && #[trigger] rest[k] == registered(rest, name, path)[i];
                    assert(s[k] == r[i]);
                }
            } else {
                assert(s[s.len() - 1] == r[i]);
            }
        }
    }
}

/// Registering a package keeps the names in order, each once.
pub proof fn law_registries_stay_in_order(
    s: Seq<(Seq<char>, Seq<char>)>,
    name: Seq<char>,
    path: Seq<char>,
)
    requires
        is_registry(s),
    ensures
        is_registry(registered(s, name, path)),
    decreases s.len(),
{
    let r = registered(s, name, path);
    if s.len() > 0 {
        let rest = s.drop_last();
        assert(is_registry(rest)) by {
            assert forall|i: int, j: int| 0 <= i < j < rest.len() implies text_le(
                (#[trigger] rest[i]).0,
                (#[trigger] rest[j]).0,
            ) && rest[i].0 != rest[j].0 by {
                assert(rest[i] == s[i] && rest[j] == s[j]);
            }
        }
        if s.last().0 == name {
            assert forall|i: int, j: int| 0 <= i < j < r.len() implies text_le(
                (#[trigger] r[i]).0,
                (#[trigger] r[j]).0,
            ) && r[i].0 != r[j].0 by {
                assert(r[i].0 == s[i].0 && r[j].0 == s[j].0);
            }
        } else if text_le(s.last().0, name) {
            let n = s.len() as int;
            assert forall|i: int, j: int| 0 <= i < j < r.len() implies text_le(
                (#[trigger] r[i]).0,
                (#[trigger] r[j]).0,
            ) && r[i].0 != r[j].0 by {
                assert(r[i] == s[i]);
                if j < n {
                    assert(r[j] == s[j]);
                } else if i < n - 1 {
                    assert(text_le(s[i].0, s[n - 1].0));
                    lemma_text_le_transitive(s[i].0, s[n - 1].0, name);
                    if s[i].0 == name {
                        lemma_text_le_antisymmetric(s[i].0, s[n - 1].0);
                    }
                }
            }
        } else {
            law_registries_stay_in_order(rest, name, path);
            lemma_text_le_total(s.last().0, name);
            let inner = registered(rest, name, path);
            let n = inner.len() as int;
            assert forall|i: int, j: int| 0 <= i < j < r.len() implies text_le(
                (#[trigger] r[i]).0,
                (#[trigger] r[j]).0,
            ) && r[i].0 != r[j].0 by {
                assert(r[i] == inner[i]);
                if j < n {
                    assert(r[j] == inner[j]);
                } else {
                    lemma_names_kept(rest, name, path, i);
                    if inner[i].0 != name {
                        let k = choose|k: int| 0 <= k < rest.len() && #[trigger] rest[k] == inner[i];
                        assert(s[k] == inner[i]);
                        assert(s[s.len() - 1] == s.last());
                    }
                }
            }
        }
    }
}

/// A package that was registered is found under its name; others keep their paths.
pub proof fn law_registered_packages_are_found(
    s: Seq<(Seq<char>, Seq<char>)>,
    name: Seq<char>,
    path: Seq<char>,
    other: Seq<char>,
)
    requires
        is_registry(s),
    ensures
        path_in(registered(s, name, path), other) == if other == name {
            Some(path)
        } else {
            path_in(s, other)
        },
    decreases s.len(),
{
    let r = registered(s, name, path);
    if s.len() == 0 {
        reveal_with_fuel(path_in, 2);
        assert(r.drop_last() =~= s);
    } else {
        let rest = s.drop_last();
        assert(is_registry(rest)) by {
            assert forall|i: int, j: int| 0 <= i < j < rest.len() implies text_le(
                (#[trigger] rest[i]).0,
                (#[trigger] rest[j]).0,
            ) && rest[i].0 != rest[j].0 by {
                assert(rest[i] == s[i] && rest[j] == s[j]);
            }
        }
        if s.last().0 == name {
            assert(r.drop_last() =~= rest);
        } else if text_le(s.last().0, name) {
            assert(r.drop_last() =~= s);
        } else {
            law_registered_packages_are_found(rest, name, path, other);
            assert(r.drop_last() =~= registered(rest, name, path));
        }
    }
}

/// Registering more packages keeps the names in order, each once. The last of those that
/// have a name is found under it; other names keep their paths.
pub proof fn law_later_packages_win(
    s: Seq<(Seq<char>, Seq<char>)>,
    more: Seq<(Seq<char>, Seq<char>)>,
    name: Seq<char>,
)
    requires
        is_registry(s),
    ensures
        is_registry(registered_all(s, more)),
        path_in(registered_all(s, more), name) == match path_in(more, name) {
            Some(path) => Some(path),
            None => path_in(s, name),
        },
    decreases more.len(),
{
    if more.len() > 0 {
        let before = registered_all(s, more.drop_last());
        law_later_packages_win(s, more.drop_last(), name);
        law_registries_stay_in_order(before, more.last().0, more.last().1);
        law_registered_packages_are_found(before, more.last().0, more.last().1, name);
    }
}

} // verus!
