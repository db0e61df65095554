//! Which declared dependencies are behind what their requirement or the
//! registry's `latest` tag allows. The registry documents, and the installed
//! manifests when there is no lockfile, are read by the program around the library.
use vstd::prelude::*;

use crate::network::registry::RegistryPackageMetadata;
use crate::package::lockfile::PackageLock;
use crate::package::manifest::PackageJson;
use crate::package::semver::{
    describes, effective_req, parse_dependency_req_with_catalogs, DependencySpec, SemverSpec,
};
use crate::resolver::{best_version, key_texts_are};
use crate::strmap::{has_key, lookup, text_at, StrMap};
use crate::text::{chars_eq, chars_of, concat, string_of};

verus! {

pub struct OutdatedPackageInfo {
    pub current: String,
    pub wanted: String,
    pub latest: String,
    pub dependent: String,
    pub location: String,
    pub dep_type: String,
}

/// A declared dependency to look up in the registry.
pub struct OutdatedCheck {
    pub pkg_name: String,
    pub registry_name: String,
    pub version_req: String,
    pub dep_type: String,
}

/// The requirement and kind a dependency is declared with, for the report:
/// dependencies and optional dependencies (the latter winning) unless only dev
/// dependencies are wanted, and dev dependencies not declared otherwise unless
/// only production ones are.
pub open spec fn declared(m: PackageJson, prod_only: bool, dev_only: bool, k: Seq<char>) -> Option<
    (Seq<char>, Seq<char>),
> {
    let from_opt = if !dev_only {
        match m.optional_dependencies {
            Some(t) => text_at(t@, k),
            None => None,
        }
    } else {
        None
    };
    let from_prod = if !dev_only {
        match m.dependencies {
            Some(t) => text_at(t@, k),
            None => None,
        }
    } else {
        None
    };
    let from_dev = if !prod_only {
        match m.dev_dependencies {
            Some(t) => text_at(t@, k),
            None => None,
        }
    } else {
        None
    };
    match from_opt {
        Some(r) => Some((r, "optionalDependencies"@)),
        None => match from_prod {
            Some(r) => Some((r, "dependencies"@)),
            None => match from_dev {
                Some(r) => Some((r, "devDependencies"@)),
                None => None,
            },
        },
    }
}

pub open spec fn pair_text(m: Seq<(String, (String, String))>, k: Seq<char>) -> Option<(Seq<char>, Seq<char>)> {
    match lookup(m, k) {
        Some(v) => Some((v.0@, v.1@)),
        None => None,
    }
}

fn put_table(
    out: &mut StrMap<(String, String)>,
    table: &Option<StrMap<String>>,
    kind: &str,
    replace: bool,
)
    ensures
        forall|k: Seq<char>|
            #![trigger pair_text(final(out)@, k)]
            pair_text(final(out)@, k) == match (match table {
                Some(t) => text_at(t@, k),
                None => None,
            }) {
                Some(r) => if replace || pair_text(old(out)@, k) is None {
                    Some((r, kind@))
                } else {
                    pair_text(old(out)@, k)
                },
                None => pair_text(old(out)@, k),
            },
{
    let t = match table {
        Some(t) => t,
        None => {
            return;
        },
    };
    let es = t.entries();
    let ghost start = out@;
    let mut i: usize = 0;
    while i < es.len()
        invariant
            i <= es@.len(),
            es@ == t@,
            *table == Some(*t),
            crate::strmap::sorted_keys(es@),
            forall|k: Seq<char>|
                #![trigger pair_text(out@, k)]
                pair_text(out@, k) == if exists|j: int| 0 <= j < i && (#[trigger] es@[j]).0@ == k {
                    if replace || pair_text(start, k) is None {
                        Some((es@[choose|j: int| 0 <= j < i && (#[trigger] es@[j]).0@ == k].1@, kind@))
                    } else {
                        pair_text(start, k)
                    }
                } else {
                    pair_text(start, k)
                },
        decreases es@.len() - i,
    {
        let key = chars_of(es[i].0.as_str());
        let ghost prev = out@;
        let present = out.contains_key(&key);
        assert(present == (pair_text(prev, key@) is Some));
        if replace || !present {
            out.insert(es[i].0.clone(), (es[i].1.clone(), string_of(chars_of(kind))));
        }
        assert forall|k: Seq<char>|
            #![trigger pair_text(out@, k)]
            pair_text(out@, k) == if exists|j: int| 0 <= j < i + 1 && (#[trigger] es@[j]).0@ == k {
                if replace || pair_text(start, k) is None {
                    Some((es@[choose|j: int| 0 <= j < i + 1 && (#[trigger] es@[j]).0@ == k].1@, kind@))
                } else {
                    pair_text(start, k)
                }
            } else {
                pair_text(start, k)
            } by {
            if k == key@ {
                assert(es@[i as int].0@ == k);
                let j = choose|j: int| 0 <= j < i + 1 && (#[trigger] es@[j]).0@ == k;
                if j != i {
                    crate::strmap::lemma_sorted_distinct(es@, i as int, j);
                }
                if exists|j: int| 0 <= j < i && (#[trigger] es@[j]).0@ == k {
                    let j2 = choose|j: int| 0 <= j < i && (#[trigger] es@[j]).0@ == k;
                    crate::strmap::lemma_sorted_distinct(es@, i as int, j2);
                }
            } else {
                assert(pair_text(out@, k) == pair_text(prev, k));
                if exists|j: int| 0 <= j < i + 1 && (#[trigger] es@[j]).0@ == k {
                    let j = choose|j: int| 0 <= j < i + 1 && (#[trigger] es@[j]).0@ == k;
                    assert(j != i);
                    assert(exists|j: int| 0 <= j < i && (#[trigger] es@[j]).0@ == k);
                    let j2 = choose|j: int| 0 <= j < i && (#[trigger] es@[j]).0@ == k;
                    if j2 != j {
                        crate::strmap::lemma_sorted_distinct(es@, j2, j);
                    }
                }
            }
        }
        i = i + 1;
    }
    assert forall|k: Seq<char>|
        #![trigger pair_text(out@, k)]
        pair_text(out@, k) == match (match table {
            Some(t) => text_at(t@, k),
            None => None,
        }) {
            Some(r) => if replace || pair_text(start, k) is None {
                Some((r, kind@))
            } else {
                pair_text(start, k)
            },
            None => pair_text(start, k),
        } by {
        crate::strmap::lemma_lookup_key(es@, k);
        if exists|j: int| 0 <= j < es@.len() && (#[trigger] es@[j]).0@ == k {
            let j = choose|j: int| 0 <= j < es@.len() && (#[trigger] es@[j]).0@ == k;
            assert(has_key(es@, k));
            let w = choose|w: int|
                0 <= w < es@.len() && (#[trigger] es@[w]).0@ == k && lookup(es@, k) == Some(es@[w].1);
            if w != j {
                crate::strmap::lemma_sorted_distinct(es@, w, j);
            }
        }
    }
}

/// The declared dependencies: name to requirement and kind (see `declared`).
pub fn declared_dependencies(manifest: &PackageJson, prod_only: bool, dev_only: bool) -> (r: StrMap<
    (String, String),
>)
    ensures
        forall|k: Seq<char>| pair_text(r@, k) == declared(*manifest, prod_only, dev_only, k),
{
    proof {
        reveal_strlit("dependencies");
        reveal_strlit("optionalDependencies");
        reveal_strlit("devDependencies");
    }
    let mut out: StrMap<(String, String)> = StrMap::new();
    if !dev_only {
        put_table(&mut out, &manifest.dependencies, "dependencies", true);
        put_table(&mut out, &manifest.optional_dependencies, "optionalDependencies", true);
    }
    if !prod_only {
        put_table(&mut out, &manifest.dev_dependencies, "devDependencies", false);
    }
    out
}

/// The version installed at the top level according to the lockfile, or `MISSING`.
pub open spec fn locked_current(lock: PackageLock, pkg: Seq<char>) -> Seq<char> {
    match lookup(lock.packages@, "node_modules/"@ + pkg) {
        Some(e) => match e.version {
            Some(v) => v@,
            None => "MISSING"@,
        },
        None => "MISSING"@,
    }
}

pub fn current_from_lock(lock: &PackageLock, pkg_name: &str) -> (r: String)
    ensures
        r@ == locked_current(*lock, pkg_name@),
{
    proof {
        reveal_strlit("node_modules/");
        reveal_strlit("MISSING");
    }
    let key = concat(&chars_of("node_modules/"), &chars_of(pkg_name));
    match lock.packages.get(&key) {
        Some(e) => match &e.version {
            Some(v) => v.clone(),
            None => string_of(chars_of("MISSING")),
        },
        None => string_of(chars_of("MISSING")),
    }
}

/// The report for one dependency, given the version installed and the
/// registry's document: the wanted version is the best match of the
/// requirement, else the `latest` tag, else the installed one; the latest is
/// the `latest` tag, else the wanted one. `None` when the installed version is
/// both, and not `MISSING`.
pub open spec fn outdated_entry_ok(
    m: PackageJson,
    pkg: Seq<char>,
    req: Seq<char>,
    dep_type: Seq<char>,
    current: Seq<char>,
    meta: RegistryPackageMetadata,
    r: Option<OutdatedPackageInfo>,
) -> bool {
    let tag = text_at(meta.dist_tags@, "latest"@);
    exists|best: Option<Seq<char>>|
        #![trigger best_version(meta, req, best)]
        best_version(meta, req, best) && {
            let wanted = match best {
                Some(b) => b,
                None => match tag {
                    Some(t) => t,
                    None => current,
                },
            };
            let latest = match tag {
                Some(t) => t,
                None => wanted,
            };
            if current == "MISSING"@ || current != wanted || current != latest {
                r matches Some(info) && info.current@ == current && info.wanted@ == wanted
                    && info.latest@ == latest && info.dependent@ == match m.name {
                    Some(n) => n@,
                    None => "root"@,
                } && info.location@ == "node_modules/"@ + pkg && info.dep_type@ == dep_type
            } else {
                r is None
            }
        }
}

/// The report for one dependency (see `outdated_entry_ok`).
pub fn outdated_entry(
    manifest: &PackageJson,
    check: &OutdatedCheck,
    current: String,
    meta: &RegistryPackageMetadata,
) -> (r: Option<OutdatedPackageInfo>)
    ensures
        outdated_entry_ok(
            *manifest,
            check.pkg_name@,
            check.version_req@,
            check.dep_type@,
            current@,
            *meta,
            r,
        ),
{
    proof {
        reveal_strlit("latest");
        reveal_strlit("MISSING");
        reveal_strlit("root");
        reveal_strlit("node_modules/");
    }
    let tag: Option<String> = match meta.dist_tags.get(&chars_of("latest")) {
        Some(t) => Some(t.clone()),
        None => None,
    };
    let es = meta.versions.entries();
    let mut keys: Vec<&str> = Vec::new();
    let mut i: usize = 0;
    while i < es.len()
        invariant
            i <= es@.len(),
            es@ == meta.versions@,
            keys@.len() == i,
            forall|j: int| 0 <= j < i ==> (#[trigger] keys@[j])@ == es@[j].0@,
        decreases es@.len() - i,
    {
        keys.push(es[i].0.as_str());
        i = i + 1;
    }
    assert(key_texts_are(keys@, meta.versions@));
    let sp = SemverSpec::new(check.version_req.as_str());
    let picked = sp.select_best(keys.as_slice());
    let best: Option<String> = match picked {
        Some(v) => Some(string_of(chars_of(v))),
        None => None,
    };
    let ghost bv = crate::resolver::opt_text(best);
    assert(best_version(*meta, check.version_req@, bv));
    let wanted = match best {
        Some(b) => b,
        None => match &tag {
            Some(t) => t.clone(),
            None => current.clone(),
        },
    };
    let latest = match tag {
        Some(t) => t,
        None => wanted.clone(),
    };
    let c = chars_of(current.as_str());
    let report = chars_eq(&c, &chars_of("MISSING")) || !chars_eq(&c, &chars_of(wanted.as_str()))
        || !chars_eq(&c, &chars_of(latest.as_str()));
    if report {
        let dependent = match &manifest.name {
            Some(n) => n.clone(),
            None => string_of(chars_of("root")),
        };
        Some(
            OutdatedPackageInfo {
                current,
                wanted,
                latest,
                dependent,
                location: string_of(concat(&chars_of("node_modules/"), &chars_of(check.pkg_name.as_str()))),
                dep_type: check.dep_type.clone(),
            },
        )
    } else {
        None
    }
}

pub open spec fn manifest_catalogs(m: PackageJson) -> Option<Seq<(String, StrMap<String>)>> {
    match m.catalogs {
        Some(c) => Some(c@),
        None => None,
    }
}

/// `out` are the registry lookups for the declared dependencies in `entries`:
/// those the filter names (all when it is empty), but for local, git and
/// tarball ones, in key order.
pub open spec fn checks_ok(
    entries: Seq<(String, (String, String))>,
    filter: Seq<Seq<char>>,
    cats: Option<Seq<(String, StrMap<String>)>>,
    out: Seq<OutdatedCheck>,
) -> bool
    decreases entries.len(),
{
    if entries.len() == 0 {
        out.len() == 0
    } else {
        let (k, v) = entries.last();
        if !(filter.len() == 0 || filter.contains(k@)) {
            checks_ok(entries.drop_last(), filter, cats, out)
        } else {
            exists|r: DependencySpec|
                #![trigger describes(r, k@, effective_req(k@, v.0@, cats))]
                describes(r, k@, effective_req(k@, v.0@, cats)) && if r.is_local_file || r.is_git
                    || r.is_tarball_url {
                    checks_ok(entries.drop_last(), filter, cats, out)
                } else {
                    &&& out.len() > 0
                    &&& checks_ok(entries.drop_last(), filter, cats, out.drop_last())
                    &&& out.last().pkg_name@ == k@
                    &&& out.last().registry_name@ == r.registry_name@
                    &&& out.last().version_req@ == r.version_req@
                    &&& out.last().dep_type@ == v.1@
                }
        }
    }
}

fn names_contain(filter: &[String], name: &Vec<char>) -> (b: bool)
    ensures
        b == filter@.map_values(|s: String| s@).contains(name@),
{
    let ghost fv = filter@.map_values(|s: String| s@);
    let mut i: usize = 0;
    while i < filter.len()
        invariant
            i <= filter@.len(),
            fv == filter@.map_values(|s: String| s@),
            forall|j: int| 0 <= j < i ==> fv[j] != name@,
        decreases filter@.len() - i,
    {
        if chars_eq(&chars_of(filter[i].as_str()), name) {
            assert(fv[i as int] == name@);
            return true;
        }
        i = i + 1;
    }
    false
}

/// The registry lookups the report needs (see `checks_ok`).
pub fn outdated_checks(
    manifest: &PackageJson,
    declared: &StrMap<(String, String)>,
    package_filter: &[String],
) -> (r: Vec<OutdatedCheck>)
    ensures
        checks_ok(
            declared@,
            package_filter@.map_values(|s: String| s@),
            manifest_catalogs(*manifest),
            r@,
        ),
{
    let ghost fv = package_filter@.map_values(|s: String| s@);
    let es = declared.entries();
    let mut out: Vec<OutdatedCheck> = Vec::new();
    let mut i: usize = 0;
    assert(es@.subrange(0, 0) =~= Seq::<(String, (String, String))>::empty());
    while i < es.len()
        invariant
            i <= es@.len(),
            es@ == declared@,
            fv == package_filter@.map_values(|s: String| s@),
            checks_ok(es@.subrange(0, i as int), fv, manifest_catalogs(*manifest), out@),
        decreases es@.len() - i,
    {
        let ghost sub = es@.subrange(0, i + 1);
        assert(sub.drop_last() =~= es@.subrange(0, i as int));
        assert(sub.last() == es@[i as int]);
        let name = &es[i].0;
        let (req, kind) = (&es[i].1.0, &es[i].1.1);
        let kept = package_filter.len() == 0 || names_contain(package_filter, &chars_of(name.as_str()));
        if kept {
            let cats = match &manifest.catalogs {
                Some(c) => Some(c),
                None => None,
            };
            assert(crate::package::semver::catalogs_view(cats) == manifest_catalogs(*manifest));
            let spec = parse_dependency_req_with_catalogs(name.as_str(), req.as_str(), cats);
            if !(spec.is_local_file || spec.is_git || spec.is_tarball_url) {
                let ghost before = out@;
                out.push(
                    OutdatedCheck {
                        pkg_name: name.clone(),
                        registry_name: spec.registry_name.clone(),
                        version_req: spec.version_req.clone(),
                        dep_type: kind.clone(),
                    },
                );
                assert(out@.drop_last() =~= before);
            }
            assert(describes(spec, name@, effective_req(name@, req@, manifest_catalogs(*manifest))));
        }
        i = i + 1;
    }
    assert(es@.subrange(0, es@.len() as int) =~= es@);
    out
}

} // verus!
