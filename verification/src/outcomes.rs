//! What the library's operations are for, stated over their inputs: the
//! version order and the pick of the highest version, the copy of a package
//! that a dependent uses (in `why` explanations and SBOM dependency records),
//! the lockfile check of a clean install, the lifecycle scripts that run.
use vstd::prelude::*;

use crate::cli::{lock_out_of_sync, table_view};
use crate::engine::lifecycle_of;
use crate::package::lockfile::{LockPackage, PackageLock};
use crate::package::sbom::{child_refs, entry_purl, root_refs};
use crate::package::semver::{
    best_choice, candidates, is_candidate, is_stable_candidate, parsed, stable_candidates,
};
use crate::package::version::{
    lemma_ord_idents_flip, ord_ident, ord_idents, precedence, IdentView, Order, VersionView,
};
use crate::package::why::{entry_table_reasons, root_table_reasons, ReasonView};
use crate::strmap::{
    has_key, lemma_lookup_key, lemma_seq_lt_irreflexive, lemma_sorted_distinct, lookup, sorted_keys,
    StrMap,
};
use crate::text::trim;

verus! {

/// Versions are ordered by major, then minor, then patch number, as numbers;
/// with the three equal, a release ranks above a pre-release, and two
/// releases rank equal.
pub proof fn law_version_order(a: VersionView, b: VersionView)
    ensures
        a.major < b.major ==> precedence(a, b) == Order::Less,
        a.major > b.major ==> precedence(a, b) == Order::Greater,
        a.major == b.major && a.minor < b.minor ==> precedence(a, b) == Order::Less,
        a.major == b.major && a.minor > b.minor ==> precedence(a, b) == Order::Greater,
        a.major == b.major && a.minor == b.minor && a.patch < b.patch ==> precedence(a, b)
            == Order::Less,
        a.major == b.major && a.minor == b.minor && a.patch > b.patch ==> precedence(a, b)
            == Order::Greater,
        a.major == b.major && a.minor == b.minor && a.patch == b.patch && a.pre.len() == 0
            && b.pre.len() > 0 ==> precedence(a, b) == Order::Greater,
        a.major == b.major && a.minor == b.minor && a.patch == b.patch && a.pre.len() > 0
            && b.pre.len() == 0 ==> precedence(a, b) == Order::Less,
        a.major == b.major && a.minor == b.minor && a.patch == b.patch && a.pre.len() == 0
            && b.pre.len() == 0 ==> precedence(a, b) == Order::Equal,
{
}

/// Comparing the other way round gives the opposite answer.
pub proof fn law_version_order_antisymmetric(a: VersionView, b: VersionView)
    ensures
        precedence(a, b) == Order::Less <==> precedence(b, a) == Order::Greater,
        precedence(a, b) == Order::Equal <==> precedence(b, a) == Order::Equal,
{
    lemma_ord_idents_flip(a.pre, b.pre);
}

/// Build metadata takes no part in the order.
pub proof fn law_version_order_ignores_build(a: VersionView, c: VersionView, b: VersionView)
    requires
        a.major == c.major,
        a.minor == c.minor,
        a.patch == c.patch,
        a.pre == c.pre,
    ensures
        precedence(a, b) == precedence(c, b),
{
}

proof fn lemma_prefix_first(p: Seq<IdentView>, q: Seq<IdentView>)
    requires
        q.len() > p.len(),
        q.subrange(0, p.len() as int) == p,
    ensures
        ord_idents(p, q) == Order::Less,
    decreases p.len(),
{
    if p.len() > 0 {
        assert(q[0] == p[0]);
        match p[0] {
            IdentView::AlphaNumeric(x) => {
                lemma_seq_lt_irreflexive(x);
            },
            IdentView::Numeric(_) => {},
        }
        assert(ord_ident(p[0], q[0]) == Order::Equal);
        assert(q.drop_first().subrange(0, p.drop_first().len() as int) =~= p.drop_first());
        lemma_prefix_first(p.drop_first(), q.drop_first());
    }
}

/// Between pre-releases of the same version: a numeric identifier ranks below
/// an alphanumeric one, numeric identifiers by value, and a list of
/// identifiers below any longer list it begins (`alpha` < `alpha.1`).
pub proof fn law_prerelease_order(a: VersionView, b: VersionView)
    requires
        a.major == b.major,
        a.minor == b.minor,
        a.patch == b.patch,
        a.pre.len() > 0,
        b.pre.len() > 0,
    ensures
        (a.pre[0] matches IdentView::Numeric(x) && b.pre[0] matches IdentView::Numeric(y) && x < y)
            ==> precedence(a, b) == Order::Less,
        (a.pre[0] is Numeric && b.pre[0] is AlphaNumeric) ==> precedence(a, b) == Order::Less,
        (b.pre.len() > a.pre.len() && b.pre.subrange(0, a.pre.len() as int) == a.pre) ==> precedence(
            a,
            b,
        ) == Order::Less,
{
    if b.pre.len() > a.pre.len() && b.pre.subrange(0, a.pre.len() as int) == a.pre {
        lemma_prefix_first(a.pre, b.pre);
    }
}

/// The version `select_best` picks is the highest: no stable candidate has a
/// higher major, minor or patch number (compared in that order), and when the
/// pick is made among all candidates (the requirement names a pre-release, or
/// no candidate is stable) no candidate ranks above it.
pub proof fn law_best_is_highest(
    raw: Seq<char>,
    sets: Option<Seq<Seq<Seq<char>>>>,
    versions: Seq<&str>,
    i: int,
    j: int,
)
    requires
        best_choice(raw, sets, versions, i),
    ensures
        is_stable_candidate(raw, sets, versions, j) ==> {
            let a = parsed(versions[j]@);
            let b = parsed(versions[i]@);
            &&& a.major <= b.major
            &&& a.major == b.major ==> a.minor <= b.minor
            &&& a.major == b.major && a.minor == b.minor ==> a.patch <= b.patch
        },
        is_candidate(raw, sets, versions, j) && (trim(raw).contains('-') || !(exists|s: int|
            #[trigger] is_stable_candidate(raw, sets, versions, s))) ==> {
            let a = parsed(versions[j]@);
            let b = parsed(versions[i]@);
            &&& a.major <= b.major
            &&& a.major == b.major ==> a.minor <= b.minor
            &&& a.major == b.major && a.minor == b.minor ==> a.patch <= b.patch
        },
{
    let a = parsed(versions[j]@);
    let b = parsed(versions[i]@);
    law_version_order(a, b);
    if !trim(raw).contains('-') && (exists|s: int| #[trigger] is_stable_candidate(raw, sets, versions, s)) {
        let ok = stable_candidates(raw, sets, versions);
        if is_stable_candidate(raw, sets, versions, j) {
            assert(ok(j));
            assert(precedence(a, b) != Order::Greater);
        }
    } else {
        let ok = candidates(raw, sets, versions);
        if is_candidate(raw, sets, versions, j) {
            assert(ok(j));
            assert(precedence(a, b) != Order::Greater);
        }
    }
}

/// The reason a lockfile entry at `path` gives for requiring `target` names
/// the copy that entry uses: the one at `path/node_modules/target` when the
/// lockfile has it, with that copy's version (the requirement when it records
/// none).
pub proof fn law_reason_names_nested_copy(
    lock: PackageLock,
    root_name: Seq<char>,
    path: Seq<char>,
    e: LockPackage,
    table: StrMap<String>,
    target: Seq<char>,
    dep_type: Seq<char>,
    req: String,
    nested: LockPackage,
)
    requires
        lookup(table@, target) == Some(req),
        lookup(lock.packages@, path + "/node_modules/"@ + target) == Some(nested),
    ensures
        entry_table_reasons(lock, root_name, path, e, Some(table), target, dep_type).len() == 1,
        ({
            let r = entry_table_reasons(lock, root_name, path, e, Some(table), target, dep_type)[0];
            &&& r.location == path + "/node_modules/"@ + target
            &&& r.version == match nested.version {
                Some(v) => v@,
                None => req@,
            }
            &&& r.requirement == req@
        }),
{
}

/// Without a copy below the entry, the reason names the top-level copy at
/// `node_modules/target`, with its version.
pub proof fn law_reason_falls_back_to_top(
    lock: PackageLock,
    root_name: Seq<char>,
    path: Seq<char>,
    e: LockPackage,
    table: StrMap<String>,
    target: Seq<char>,
    dep_type: Seq<char>,
    req: String,
    top: LockPackage,
)
    requires
        lookup(table@, target) == Some(req),
        lookup(lock.packages@, path + "/node_modules/"@ + target) is None,
        lookup(lock.packages@, "node_modules/"@ + target) == Some(top),
    ensures
        entry_table_reasons(lock, root_name, path, e, Some(table), target, dep_type).len() == 1,
        ({
            let r = entry_table_reasons(lock, root_name, path, e, Some(table), target, dep_type)[0];
            &&& r.location == "node_modules/"@ + target
            &&& r.version == match top.version {
                Some(v) => v@,
                None => req@,
            }
            &&& r.requirement == req@
        }),
{
}

/// Two dependency tables that read the same as text pairs hold the same names,
/// with the same requirement under each.
proof fn lemma_same_table_lookup(a: StrMap<String>, b: StrMap<String>, k: Seq<char>)
    requires
        sorted_keys(a@),
        sorted_keys(b@),
        table_view(Some(a)) == table_view(Some(b)),
    ensures
        has_key(a@, k) == has_key(b@, k),
        has_key(a@, k) ==> lookup(a@, k)->0@ == lookup(b@, k)->0@,
{
    let va = a@.map_values(|e: (String, String)| (e.0@, e.1@));
    let vb = b@.map_values(|e: (String, String)| (e.0@, e.1@));
    assert(va == vb);
    assert(va.len() == a@.len() && vb.len() == b@.len());
    assert forall|i: int| 0 <= i < a@.len() implies a@[i].0@ == b@[i].0@ && a@[i].1@ == b@[i].1@ by {
        assert(va[i] == (a@[i].0@, a@[i].1@));
        assert(vb[i] == (b@[i].0@, b@[i].1@));
    }
    lemma_lookup_key(a@, k);
    lemma_lookup_key(b@, k);
    if has_key(a@, k) {
        let i = choose|i: int| 0 <= i < a@.len() && (#[trigger] a@[i]).0@ == k && lookup(a@, k) == Some(a@[i].1);
        assert(b@[i].0@ == k);
        assert(has_key(b@, k));
        let j = choose|j: int| 0 <= j < b@.len() && (#[trigger] b@[j]).0@ == k && lookup(b@, k) == Some(b@[j].1);
        if i != j {
            lemma_sorted_distinct(b@, i, j);
        }
    }
    if has_key(b@, k) {
        let j = choose|j: int| 0 <= j < b@.len() && (#[trigger] b@[j]).0@ == k;
        assert(a@[j].0@ == k);
    }
}

/// A clean install refuses a lockfile whose root entry gives a dependency (or
/// dev dependency) another requirement than `package.json` does.
pub proof fn law_ci_requirement_mismatch(
    manifest: crate::package::manifest::PackageJson,
    lock: PackageLock,
    root: LockPackage,
    declared: StrMap<String>,
    locked: StrMap<String>,
    name: Seq<char>,
    x: String,
    y: String,
)
    requires
        lookup(lock.packages@, Seq::empty()) == Some(root),
        sorted_keys(declared@),
        sorted_keys(locked@),
        (manifest.dependencies == Some(declared) && root.dependencies == Some(locked)) || (
        manifest.dev_dependencies == Some(declared) && root.dev_dependencies == Some(locked)),
        lookup(declared@, name) == Some(x),
        lookup(locked@, name) == Some(y),
        x@ != y@,
    ensures
        lock_out_of_sync(manifest, lock),
{
    if table_view(Some(declared)) == table_view(Some(locked)) {
        lemma_same_table_lookup(declared, locked, name);
    }
}

/// A clean install refuses a lockfile whose root entry lists a dependency (or
/// dev dependency) that `package.json` does not, or misses one it does.
pub proof fn law_ci_name_mismatch(
    manifest: crate::package::manifest::PackageJson,
    lock: PackageLock,
    root: LockPackage,
    declared: StrMap<String>,
    locked: StrMap<String>,
    name: Seq<char>,
)
    requires
        lookup(lock.packages@, Seq::empty()) == Some(root),
        sorted_keys(declared@),
        sorted_keys(locked@),
        (manifest.dependencies == Some(declared) && root.dependencies == Some(locked)) || (
        manifest.dev_dependencies == Some(declared) && root.dev_dependencies == Some(locked)),
        has_key(declared@, name) != has_key(locked@, name),
    ensures
        lock_out_of_sync(manifest, lock),
{
    if table_view(Some(declared)) == table_view(Some(locked)) {
        lemma_same_table_lookup(declared, locked, name);
    }
}

/// The lifecycle scripts run for a package are exactly those of `preinstall`,
/// `install` and `postinstall` its scripts table defines, each once,
/// `preinstall` first and `postinstall` last.
pub proof fn law_lifecycle_scripts(scripts: Option<StrMap<String>>)
    ensures
        forall|n: Seq<char>|
            lifecycle_of(scripts).contains(n) <==> (scripts matches Some(m) && has_key(m@, n) && (n
                == "preinstall"@ || n == "install"@ || n == "postinstall"@)),
        lifecycle_of(scripts).no_duplicates(),
        lifecycle_of(scripts).contains("preinstall"@) ==> lifecycle_of(scripts)[0] == "preinstall"@,
        lifecycle_of(scripts).contains("postinstall"@) ==> lifecycle_of(scripts).last()
            == "postinstall"@,
{
    reveal_strlit("preinstall");
    reveal_strlit("install");
    reveal_strlit("postinstall");
    let p = "preinstall"@;
    let i = "install"@;
    let q = "postinstall"@;
    assert(p.len() == 10 && i.len() == 7 && q.len() == 11);
    assert(p != i && p != q && i != q);
    let l = lifecycle_of(scripts);
    match scripts {
        Some(m) => {
            let a = if has_key(m@, p) { seq![p] } else { Seq::<Seq<char>>::empty() };
            let b = if has_key(m@, i) { seq![i] } else { Seq::<Seq<char>>::empty() };
            let c = if has_key(m@, q) { seq![q] } else { Seq::<Seq<char>>::empty() };
            assert(l == a + b + c);
            assert forall|n: Seq<char>| l.contains(n) <==> (has_key(m@, n) && (n == p || n == i || n
                == q)) by {
                if l.contains(n) {
                    let k = choose|k: int| 0 <= k < l.len() && l[k] == n;
                    if k < a.len() {
                        assert(l[k] == a[k]);
                    } else if k < a.len() + b.len() {
                        assert(l[k] == b[k - a.len()]);
                    } else {
                        assert(l[k] == c[k - a.len() - b.len()]);
                    }
                }
                if has_key(m@, n) && n == p {
                    assert(l[0] == p);
                }
                if has_key(m@, n) && n == i {
                    assert(l[a.len() as int] == i);
                }
                if has_key(m@, n) && n == q {
                    assert(l[(a.len() + b.len()) as int] == q);
                }
            }
            assert forall|x: int, y: int| 0 <= x < l.len() && 0 <= y < l.len() && x != y implies l[x]
                != l[y] by {
                assert(l[x] == (a + b + c)[x]);
                assert(l[y] == (a + b + c)[y]);
            }
            if l.contains(p) {
                assert(has_key(m@, p));
                assert(l[0] == p);
            }
            if l.contains(q) {
                assert(has_key(m@, q));
                assert(l.last() == q);
            }
        },
        None => {},
    }
}

/// The dependency record of a package lists, for each of its dependencies, the
/// package URL of the copy it uses: the one at `path/node_modules/k` when the
/// lockfile has it.
pub proof fn law_dependency_ref_nested_first(
    lock: PackageLock,
    path: Seq<char>,
    deps: Seq<(String, String)>,
    k: String,
    req: String,
    nested: LockPackage,
)
    requires
        lookup(lock.packages@, path + "/node_modules/"@ + k@) == Some(nested),
    ensures
        child_refs(lock, path, deps.push((k, req))) == child_refs(lock, path, deps).push(
            entry_purl(path + "/node_modules/"@ + k@, nested),
        ),
{
    reveal_strlit("/node_modules/");
    assert(deps.push((k, req)).drop_last() =~= deps);
    assert((path + "/node_modules/"@ + k@).len() > 0);
}

/// Without a copy below the package, its record lists the top-level copy at
/// `node_modules/k`; with neither, the dependency adds nothing.
pub proof fn law_dependency_ref_top_fallback(
    lock: PackageLock,
    path: Seq<char>,
    deps: Seq<(String, String)>,
    k: String,
    req: String,
)
    requires
        lookup(lock.packages@, path + "/node_modules/"@ + k@) is None,
    ensures
        lookup(lock.packages@, "node_modules/"@ + k@) matches Some(top) ==> child_refs(
            lock,
            path,
            deps.push((k, req)),
        ) == child_refs(lock, path, deps).push(entry_purl("node_modules/"@ + k@, top)),
        lookup(lock.packages@, "node_modules/"@ + k@) is None ==> child_refs(
            lock,
            path,
            deps.push((k, req)),
        ) == child_refs(lock, path, deps),
{
    reveal_strlit("node_modules/");
    assert(deps.push((k, req)).drop_last() =~= deps);
    assert(("node_modules/"@ + k@).len() > 0);
}

/// A dependency the project itself declares is explained by the top-level
/// copy at `node_modules/target`, with that copy's version (the requirement
/// when the lockfile records none), required by the project.
pub proof fn law_root_reason_names_top_copy(
    table: StrMap<String>,
    lock: PackageLock,
    root_name: Seq<char>,
    root_version: Seq<char>,
    target: Seq<char>,
    dep_type: Seq<char>,
    req: String,
)
    requires
        lookup(table@, target) == Some(req),
    ensures
        root_table_reasons(Some(table), lock, root_name, root_version, target, dep_type).len() == 1,
        ({
            let r = root_table_reasons(Some(table), lock, root_name, root_version, target, dep_type)[0];
            &&& r.location == "node_modules/"@ + target
            &&& r.version == match lookup(lock.packages@, "node_modules/"@ + target) {
                Some(e) => match e.version {
                    Some(v) => v@,
                    None => req@,
                },
                None => req@,
            }
            &&& r.requirement == req@
            &&& r.required_by == root_name + "@"@ + root_version
        }),
{
}

/// The project's own dependency record lists, for each dependency, the package
/// URL of the top-level copy at `node_modules/k` (nothing when it is absent).
pub proof fn law_root_refs_top_copy(
    lock: PackageLock,
    deps: Seq<(String, String)>,
    k: String,
    req: String,
)
    ensures
        lookup(lock.packages@, "node_modules/"@ + k@) matches Some(top) ==> root_refs(
            lock,
            deps.push((k, req)),
        ) == root_refs(lock, deps).push(entry_purl("node_modules/"@ + k@, top)),
        lookup(lock.packages@, "node_modules/"@ + k@) is None ==> root_refs(lock, deps.push((k, req)))
            == root_refs(lock, deps),
{
    reveal_strlit("node_modules/");
    assert(deps.push((k, req)).drop_last() =~= deps);
    assert(("node_modules/"@ + k@).len() > 0);
}

} // verus!
