//! Dependency resolution. The resolver walks a queue of requirements; each step
//! asks the program around the library for one thing (a local manifest, a git
//! checkout, a tarball, or a registry document) and decides from what came back
//! which package is installed where and what is queued next.
use vstd::prelude::*;

use crate::hashing::{base64_of, sha512_of};
use crate::json::{json_bool, json_member, json_str, same_json, JsonValue};
use crate::network::tarball::sha512_integrity;
use crate::network::registry::{RegistryPackageMetadata, RegistryVersionMetadata};
use crate::package::lockfile::{LockPackage, PackageLock};
use crate::package::manifest::PackageJson;
use crate::package::platform::{is_cpu_supported, is_os_supported, list_allows, npm_cpu, npm_os, opt_seq};
use crate::package::semver::{
    describes, effective_req, git_clone_url, git_committish, normalize_git_url,
    parse_dependency_req_with_catalogs, spec_matches, complex_range, DependencySpec, SemverSpec,
    best_choice, is_candidate,
};
use crate::strmap::{has_key, lemma_lookup_key, lemma_sorted_distinct, lookup, sorted_keys, text_at, StrMap};
use crate::text::{chars_eq, chars_of, concat, split_last, split_last_piece, string_of, trim};

verus! {

/// Represents a resolved package node in the dependency graph
pub struct ResolvedNode {
    pub name: String,
    pub version: String,
    pub resolved_url: String,
    pub integrity: String,
    pub dev: bool,
    pub optional: bool,
    pub peer: bool,
    pub is_local_file: bool,
    pub local_source_path: Option<String>,
    pub dependencies: StrMap<String>,
    pub bin: Option<JsonValue>,
    pub has_install_script: bool,
    pub engines: Option<StrMap<String>>,
    pub os: Option<Vec<String>>,
    pub cpu: Option<Vec<String>>,
    pub install_path: String,
}

/// A requirement waiting to be resolved.
pub struct QueueItem {
    pub dep_key: String,
    pub req: String,
    pub is_dev: bool,
    pub is_optional: bool,
    pub is_peer: bool,
    /// Install path of the package that asked for it; empty for the root.
    pub parent_path: String,
    /// `name@version` of each package on the way here, after `root`.
    pub cycle_path: Vec<String>,
}

/// A queue item as plain values.
pub struct ItemView {
    pub dep_key: Seq<char>,
    pub req: Seq<char>,
    pub is_dev: bool,
    pub is_optional: bool,
    pub is_peer: bool,
    pub parent_path: Seq<char>,
    pub cycle_path: Seq<Seq<char>>,
}

pub open spec fn texts(v: Seq<String>) -> Seq<Seq<char>> {
    v.map_values(|s: String| s@)
}

impl View for QueueItem {
    type V = ItemView;

    open spec fn view(&self) -> ItemView {
        ItemView {
            dep_key: self.dep_key@,
            req: self.req@,
            is_dev: self.is_dev,
            is_optional: self.is_optional,
            is_peer: self.is_peer,
            parent_path: self.parent_path@,
            cycle_path: texts(self.cycle_path@),
        }
    }
}

pub open spec fn items_view(q: Seq<QueueItem>) -> Seq<ItemView> {
    q.map_values(|i: QueueItem| i@)
}

/// What the resolver needs from outside before it can go on.
pub enum Fetch {
    /// The manifest `package.json` in the directory `path`, relative to the project.
    LocalManifest { path: String },
    /// A checkout of the repository at `url`, at `committish` when one is named.
    GitRepo { url: String, committish: Option<String> },
    /// The bytes of the tarball at `url`, and the manifest inside it.
    Tarball { url: String },
    /// The registry's document for the package `name`.
    Metadata { name: String },
}

/// Why resolution stopped.
pub enum ResolveError {
    /// A `file:` dependency names a directory without a manifest.
    LocalPackageMissing { path: String },
    /// The registry document could not be had; the message says why.
    Fetch { message: String },
    /// No published version satisfies the requirement.
    NoMatchingVersion { name: String, req: String },
    /// The chosen version is not in the registry document.
    VersionNotFound { version: String, name: String },
}

/// The item being resolved, with what has been decided of it so far.
pub struct Pending {
    pub item: QueueItem,
    pub spec: DependencySpec,
    /// The version already chosen (from the lockfile, or from a dist-tag whose
    /// document had to be fetched again).
    pub chosen: Option<String>,
}

/// The state of one resolution.
pub struct Resolution {
    pub queue: std::collections::VecDeque<QueueItem>,
    pub installed: StrMap<ResolvedNode>,
    /// The (install path, version) pairs whose dependencies have been queued.
    pub visited: Vec<(String, String)>,
    pub pending: Option<Pending>,
}

/// Settings a resolution runs with.
pub struct Resolver {
    pub existing_lock: Option<PackageLock>,
    pub overrides: StrMap<JsonValue>,
    pub catalogs: StrMap<StrMap<String>>,
    /// The host's operating system and architecture, by Rust's names.
    pub host_os: String,
    pub host_arch: String,
}

pub open spec fn opt_lookup<V>(m: Option<StrMap<V>>, k: Seq<char>) -> Option<V> {
    match m {
        Some(mm) => lookup(mm@, k),
        None => None,
    }
}

/// The override in force for `k`: a later manifest's over an earlier one's, a
/// manifest's `resolutions` over its `overrides`, any manifest's over the
/// resolver's own.
pub open spec fn effective_override(
    base: Seq<(String, JsonValue)>,
    ms: Seq<PackageJson>,
    k: Seq<char>,
) -> Option<JsonValue>
    decreases ms.len(),
{
    if ms.len() == 0 {
        lookup(base, k)
    } else if opt_lookup(ms.last().resolutions, k) is Some {
        opt_lookup(ms.last().resolutions, k)
    } else if opt_lookup(ms.last().overrides, k) is Some {
        opt_lookup(ms.last().overrides, k)
    } else {
        effective_override(base, ms.drop_last(), k)
    }
}

/// The string member `k` of an override object, or `fallback`.
pub open spec fn member_text_or(v: JsonValue, k: Seq<char>, fallback: Seq<char>) -> Seq<char> {
    match json_member(v, k) {
        Some(d) => match json_str(d) {
            Some(s) => s,
            None => fallback,
        },
        None => fallback,
    }
}

/// The requirement after overrides: an override given as a string replaces it,
/// one given as an object replaces it by its `"."` member; then, below another
/// package, an object override of that package's folder may replace it by the
/// member named after the dependency.
pub open spec fn overridden_req(
    base: Seq<(String, JsonValue)>,
    ms: Seq<PackageJson>,
    item: ItemView,
) -> Seq<char> {
    let own = match effective_override(base, ms, item.dep_key) {
        Some(v) => match json_str(v) {
            Some(s) => s,
            None => member_text_or(v, "."@, item.req),
        },
        None => item.req,
    };
    if item.parent_path.len() == 0 {
        own
    } else {
        match effective_override(base, ms, split_last(item.parent_path, "/"@)) {
            Some(po) => member_text_or(po, item.dep_key, own),
            None => own,
        }
    }
}

pub open spec fn top_path(key: Seq<char>) -> Seq<char> {
    "node_modules/"@ + key
}

pub open spec fn nested_path(parent: Seq<char>, key: Seq<char>) -> Seq<char> {
    parent + "/node_modules/"@ + key
}

/// Whether the version text satisfies the requirement (`SemverSpec::matches`).
pub open spec fn req_admits(req: Seq<char>, version: Seq<char>) -> bool {
    spec_matches(trim(req), complex_range(trim(req)), version)
}

/// The version the lockfile already has for the item, when it satisfies the
/// requirement: looked up at the nested path first, then at the top level.
pub open spec fn locked_version(
    lock: Option<PackageLock>,
    parent: Seq<char>,
    key: Seq<char>,
    req: Seq<char>,
) -> Option<Seq<char>> {
    match lock {
        None => None,
        Some(l) => {
            let check = if parent.len() == 0 {
                top_path(key)
            } else {
                nested_path(parent, key)
            };
            let entry = match lookup(l.packages@, check) {
                Some(e) => Some(e),
                None => lookup(l.packages@, top_path(key)),
            };
            match entry {
                Some(e) => match e.version {
                    Some(v) => if req_admits(req, v@) {
                        Some(v@)
                    } else {
                        None
                    },
                    None => None,
                },
                None => None,
            }
        },
    }
}

pub open spec fn opt_text(o: Option<String>) -> Option<Seq<char>> {
    match o {
        Some(s) => Some(s@),
        None => None,
    }
}

/// What the resolver asks for, given the dependency an item describes.
pub open spec fn fetch_for(spec: DependencySpec, f: Fetch) -> bool {
    if spec.is_local_file {
        f matches Fetch::LocalManifest { path } && path@ == spec.version_req@
    } else if spec.is_git {
        f matches Fetch::GitRepo { url, committish } && url@ == git_clone_url(spec.version_req@)
            && opt_text(committish) == git_committish(spec.version_req@)
    } else if spec.is_tarball_url {
        f matches Fetch::Tarball { url } && url@ == spec.version_req@
    } else {
        f matches Fetch::Metadata { name } && name@ == spec.registry_name@
    }
}

fn copy_texts(v: &Vec<String>) -> (r: Vec<String>)
    ensures
        r@ == v@,
{
    let mut out: Vec<String> = Vec::new();
    let mut i: usize = 0;
    while i < v.len()
        invariant
            i <= v@.len(),
            out@ == v@.subrange(0, i as int),
        decreases v@.len() - i,
    {
        out.push(v[i].clone());
        i = i + 1;
        assert(out@ =~= v@.subrange(0, i as int));
    }
    assert(v@.subrange(0, v@.len() as int) =~= v@);
    out
}

fn text_of(s: &Vec<char>) -> (r: String)
    ensures
        r@ == s@,
{
    string_of(crate::text::slice_of(s, 0, s.len()))
}

/// The entry `k` of the catalog `c`.
pub open spec fn cat_text(m: Seq<(String, StrMap<String>)>, c: Seq<char>, k: Seq<char>) -> Option<
    Seq<char>,
> {
    match lookup(m, c) {
        Some(inner) => text_at(inner@, k),
        None => None,
    }
}

/// The catalog entry in force: a later manifest's over an earlier one's, any
/// manifest's over the resolver's own.
pub open spec fn merged_cat_text(
    base: Seq<(String, StrMap<String>)>,
    ms: Seq<PackageJson>,
    c: Seq<char>,
    k: Seq<char>,
) -> Option<Seq<char>>
    decreases ms.len(),
{
    if ms.len() == 0 {
        cat_text(base, c, k)
    } else {
        match ms.last().catalogs {
            Some(cm) => match cat_text(cm@, c, k) {
                Some(v) => Some(v),
                None => merged_cat_text(base, ms.drop_last(), c, k),
            },
            None => merged_cat_text(base, ms.drop_last(), c, k),
        }
    }
}

/// Copies every catalog entry of `cats` into `eff`, replacing what is there.
fn merge_catalogs(eff: &mut StrMap<StrMap<String>>, cats: &StrMap<StrMap<String>>)
    ensures
        forall|c: Seq<char>, k: Seq<char>|
            cat_text(final(eff)@, c, k) == match cat_text(cats@, c, k) {
                Some(v) => Some(v),
                None => cat_text(old(eff)@, c, k),
            },
{
    let src = cats.entries();
    let ghost before = eff@;
    let mut i: usize = 0;
    while i < src.len()
        invariant
            i <= src@.len(),
            src@ == cats@,
            sorted_keys(src@),
            forall|c: Seq<char>, k: Seq<char>|
                cat_text(eff@, c, k) == if exists|j: int| 0 <= j < i && (#[trigger] src@[j]).0@ == c {
                    match text_at(src@[choose|j: int| 0 <= j < i && (#[trigger] src@[j]).0@ == c].1@, k) {
                        Some(v) => Some(v),
                        None => cat_text(before, c, k),
                    }
                } else {
                    cat_text(before, c, k)
                },
        decreases src@.len() - i,
    {
        let name = src[i].0.clone();
        let ghost prev = eff@;
        let mut cur = match eff.remove(&chars_of(name.as_str())) {
            Some(m) => m,
            None => StrMap::new(),
        };
        let ghost cur0 = cur@;
        cur.extend_from(&src[i].1);
        eff.insert(name, cur);
        assert forall|c: Seq<char>, k: Seq<char>|
            cat_text(eff@, c, k) == if exists|j: int| 0 <= j < i + 1 && (#[trigger] src@[j]).0@ == c {
                match text_at(src@[choose|j: int| 0 <= j < i + 1 && (#[trigger] src@[j]).0@ == c].1@, k) {
                    Some(v) => Some(v),
                    None => cat_text(before, c, k),
                }
            } else {
                cat_text(before, c, k)
            } by {
            if c == src@[i as int].0@ {
                assert(src@[i as int].0@ == c);
                let j = choose|j: int| 0 <= j < i + 1 && (#[trigger] src@[j]).0@ == c;
                if j != i {
                    lemma_sorted_distinct(src@, i as int, j);
                }
                if exists|j: int| 0 <= j < i && (#[trigger] src@[j]).0@ == c {
                    let j2 = choose|j: int| 0 <= j < i && (#[trigger] src@[j]).0@ == c;
                    lemma_sorted_distinct(src@, i as int, j2);
                }
                assert(text_at(cur0, k) == cat_text(prev, c, k));
            } else {
                assert(cat_text(eff@, c, k) == cat_text(prev, c, k));
                if exists|j: int| 0 <= j < i + 1 && (#[trigger] src@[j]).0@ == c {
                    let j = choose|j: int| 0 <= j < i + 1 && (#[trigger] src@[j]).0@ == c;
                    assert(j != i);
                    assert(exists|j: int| 0 <= j < i && (#[trigger] src@[j]).0@ == c);
                    let j2 = choose|j: int| 0 <= j < i && (#[trigger] src@[j]).0@ == c;
                    if j2 != j {
                        lemma_sorted_distinct(src@, j2, j);
                    }
                }
            }
        }
        i = i + 1;
    }
    assert forall|c: Seq<char>, k: Seq<char>|
        cat_text(eff@, c, k) == match cat_text(cats@, c, k) {
            Some(v) => Some(v),
            None => cat_text(before, c, k),
        } by {
        lemma_lookup_key(src@, c);
        if exists|j: int| 0 <= j < src@.len() && (#[trigger] src@[j]).0@ == c {
            let j = choose|j: int| 0 <= j < src@.len() && (#[trigger] src@[j]).0@ == c;
            assert(has_key(src@, c));
            let w = choose|w: int|
                0 <= w < src@.len() && (#[trigger] src@[w]).0@ == c && lookup(src@, c) == Some(
                    src@[w].1,
                );
            if w != j {
                lemma_sorted_distinct(src@, w, j);
            }
        }
    }
}

/// The root's requirements in one table, as queue items.
pub open spec fn root_items(
    table: Option<StrMap<String>>,
    is_dev: bool,
    is_optional: bool,
    is_peer: bool,
) -> Seq<ItemView> {
    match table {
        Some(t) => t@.map_values(
            |e: (String, String)|
                ItemView {
                    dep_key: e.0@,
                    req: e.1@,
                    is_dev,
                    is_optional,
                    is_peer,
                    parent_path: Seq::empty(),
                    cycle_path: seq!["root"@],
                },
        ),
        None => Seq::empty(),
    }
}

/// A manifest's requirements in the order they are queued: dependencies,
/// dev dependencies, optional dependencies, peer dependencies.
pub open spec fn manifest_items(m: PackageJson) -> Seq<ItemView> {
    root_items(m.dependencies, false, false, false) + root_items(m.dev_dependencies, true, false, false)
        + root_items(m.optional_dependencies, false, true, false) + root_items(
        m.peer_dependencies,
        false,
        false,
        true,
    )
}

pub open spec fn all_root_items(ms: Seq<PackageJson>) -> Seq<ItemView>
    decreases ms.len(),
{
    if ms.len() == 0 {
        Seq::empty()
    } else {
        all_root_items(ms.drop_last()) + manifest_items(ms.last())
    }
}

fn push_table(
    q: &mut std::collections::VecDeque<QueueItem>,
    table: &Option<StrMap<String>>,
    is_dev: bool,
    is_optional: bool,
    is_peer: bool,
)
    ensures
        items_view(final(q)@) == items_view(old(q)@) + root_items(*table, is_dev, is_optional, is_peer),
{
    proof {
        reveal_strlit("root");
    }
    match table {
        Some(t) => {
            let es = t.entries();
            let ghost start = items_view(q@);
            let mut i: usize = 0;
            while i < es.len()
                invariant
                    i <= es@.len(),
                    es@ == t@,
                    *table == Some(*t),
                    items_view(q@) == start + root_items(*table, is_dev, is_optional, is_peer).subrange(0, i as int),
                decreases es@.len() - i,
            {
                let mut cycle: Vec<String> = Vec::new();
                cycle.push(string_of(chars_of("root")));
                let item = QueueItem {
                    dep_key: es[i].0.clone(),
                    req: es[i].1.clone(),
                    is_dev,
                    is_optional,
                    is_peer,
                    parent_path: String::new(),
                    cycle_path: cycle,
                };
                proof {
                    reveal_strlit("");
                }
                assert(item@.cycle_path =~= seq!["root"@]);
                assert(item@.parent_path =~= Seq::<char>::empty());
                let ghost before = items_view(q@);
                let ghost all = root_items(*table, is_dev, is_optional, is_peer);
                assert(all.len() == es@.len());
                assert(all[i as int] == item@);
                q.push_back(item);
                assert(items_view(q@) =~= before.push(item@));
                assert(root_items(*table, is_dev, is_optional, is_peer).subrange(0, i + 1) =~= root_items(
                    *table,
                    is_dev,
                    is_optional,
                    is_peer,
                ).subrange(0, i as int).push(item@));
                i = i + 1;
            }
            assert(root_items(*table, is_dev, is_optional, is_peer).subrange(0, es@.len() as int) =~= root_items(
                *table,
                is_dev,
                is_optional,
                is_peer,
            ));
        },
        None => {
            assert(items_view(q@) + Seq::<ItemView>::empty() =~= items_view(q@));
        },
    }
}

/// The root requirements of all manifests, queued in order.
pub fn initial_queue(manifests: &[PackageJson]) -> (q: std::collections::VecDeque<QueueItem>)
    ensures
        items_view(q@) == all_root_items(manifests@),
{
    let mut q: std::collections::VecDeque<QueueItem> = std::collections::VecDeque::new();
    let mut i: usize = 0;
    assert(items_view(q@) =~= Seq::<ItemView>::empty());
    while i < manifests.len()
        invariant
            i <= manifests@.len(),
            items_view(q@) == all_root_items(manifests@.subrange(0, i as int)),
        decreases manifests@.len() - i,
    {
        let ghost pre = manifests@.subrange(0, i + 1);
        assert(pre.drop_last() =~= manifests@.subrange(0, i as int));
        let m = &manifests[i];
        push_table(&mut q, &m.dependencies, false, false, false);
        push_table(&mut q, &m.dev_dependencies, true, false, false);
        push_table(&mut q, &m.optional_dependencies, false, true, false);
        push_table(&mut q, &m.peer_dependencies, false, false, true);
        assert(items_view(q@) =~= all_root_items(pre));
        i = i + 1;
    }
    assert(manifests@.subrange(0, manifests@.len() as int) =~= manifests@);
    q
}

impl Resolver {
    /// The catalogs a resolution over `manifests` reads requirements from: the
    /// resolver's own, with each manifest's `catalogs` laid over them in turn.
    pub fn merged_catalogs(&self, manifests: &[PackageJson]) -> (r: StrMap<StrMap<String>>)
        ensures
            forall|c: Seq<char>, k: Seq<char>|
                cat_text(r@, c, k) == merged_cat_text(self.catalogs@, manifests@, c, k),
    {
        let mut eff: StrMap<StrMap<String>> = StrMap::new();
        merge_catalogs(&mut eff, &self.catalogs);
        let mut i: usize = 0;
        while i < manifests.len()
            invariant
                i <= manifests@.len(),
                forall|c: Seq<char>, k: Seq<char>|
                    cat_text(eff@, c, k) == merged_cat_text(
                        self.catalogs@,
                        manifests@.subrange(0, i as int),
                        c,
                        k,
                    ),
            decreases manifests@.len() - i,
        {
            let ghost pre = manifests@.subrange(0, i + 1);
            assert(pre.drop_last() =~= manifests@.subrange(0, i as int));
            if let Some(cats) = &manifests[i].catalogs {
                merge_catalogs(&mut eff, cats);
            }
            i = i + 1;
        }
        assert(manifests@.subrange(0, manifests@.len() as int) =~= manifests@);
        eff
    }

    pub fn new(existing_lock: Option<PackageLock>, host_os: String, host_arch: String) -> (r: Self)
        ensures
            r.existing_lock == existing_lock,
            r.overrides@.len() == 0,
            r.catalogs@.len() == 0,
            r.host_os == host_os,
            r.host_arch == host_arch,
    {
        Resolver {
            existing_lock,
            overrides: StrMap::new(),
            catalogs: StrMap::new(),
            host_os,
            host_arch,
        }
    }

    pub fn with_overrides(self, overrides: StrMap<JsonValue>) -> (r: Self)
        ensures
            r.overrides == overrides,
            r.existing_lock == self.existing_lock,
            r.catalogs == self.catalogs,
            r.host_os == self.host_os,
            r.host_arch == self.host_arch,
    {
        Resolver { overrides, ..self }
    }

    pub fn with_catalogs(self, catalogs: StrMap<StrMap<String>>) -> (r: Self)
        ensures
            r.catalogs == catalogs,
            r.existing_lock == self.existing_lock,
            r.overrides == self.overrides,
            r.host_os == self.host_os,
            r.host_arch == self.host_arch,
    {
        Resolver { catalogs, ..self }
    }

    /// The override in force for `k`.
    fn find_override<'a>(&'a self, manifests: &'a [PackageJson], k: &Vec<char>) -> (r: Option<
        &'a JsonValue,
    >)
        ensures
            match r {
                Some(v) => effective_override(self.overrides@, manifests@, k@) == Some(*v),
                None => effective_override(self.overrides@, manifests@, k@) is None,
            },
    {
        let mut i: usize = manifests.len();
        assert(manifests@.subrange(0, manifests@.len() as int) =~= manifests@);
        while i > 0
            invariant
                i <= manifests@.len(),
                effective_override(self.overrides@, manifests@, k@) == effective_override(
                    self.overrides@,
                    manifests@.subrange(0, i as int),
                    k@,
                ),
            decreases i,
        {
            let ghost pre = manifests@.subrange(0, i as int);
            assert(pre.drop_last() =~= manifests@.subrange(0, i - 1));
            let m = &manifests[i - 1];
            if let Some(res) = &m.resolutions {
                if let Some(v) = res.get(k) {
                    return Some(v);
                }
            }
            if let Some(ov) = &m.overrides {
                if let Some(v) = ov.get(k) {
                    return Some(v);
                }
            }
            i = i - 1;
        }
        assert(manifests@.subrange(0, 0) =~= Seq::<PackageJson>::empty());
        self.overrides.get(k)
    }

    /// The requirement an item resolves with, after overrides.
    pub fn overridden_requirement(&self, manifests: &[PackageJson], item: &QueueItem) -> (r: String)
        ensures
            r@ == overridden_req(self.overrides@, manifests@, item@),
    {
        let key = chars_of(item.dep_key.as_str());
        let mut req = chars_of(item.req.as_str());
        proof {
            reveal_strlit(".");
            reveal_strlit("/");
        }
        if let Some(v) = self.find_override(manifests, &key) {
            match v.as_str() {
                Some(s) => {
                    req = chars_of(s.as_str());
                },
                None => {
                    if let Some(d) = v.get(".") {
                        if let Some(s) = d.as_str() {
                            req = chars_of(s.as_str());
                        }
                    }
                },
            }
        }
        let parent = chars_of(item.parent_path.as_str());
        if parent.len() > 0 {
            let folder = split_last_piece(&parent, &chars_of("/"));
            if let Some(po) = self.find_override(manifests, &folder) {
                if let Some(d) = po.get(item.dep_key.as_str()) {
                    if let Some(s) = d.as_str() {
                        req = chars_of(s.as_str());
                    }
                }
            }
        }
        text_of(&req)
    }
}

/// The item with its requirement replaced.
pub open spec fn with_req(i: ItemView, req: Seq<char>) -> ItemView {
    ItemView { req, ..i }
}

/// What `next_fetch` leaves pending for an item of the queue.
pub open spec fn pending_for(
    r: Resolver,
    manifests: Seq<PackageJson>,
    catalogs: Seq<(String, StrMap<String>)>,
    item: ItemView,
    p: Pending,
) -> bool {
    let req = overridden_req(r.overrides@, manifests, item);
    &&& p.item@ == with_req(item, req)
    &&& describes(p.spec, item.dep_key, effective_req(item.dep_key, req, Some(catalogs)))
    &&& opt_text(p.chosen) == if p.spec.is_local_file || p.spec.is_git || p.spec.is_tarball_url {
        None
    } else {
        locked_version(r.existing_lock, item.parent_path, item.dep_key, p.spec.version_req@)
    }
}

impl Resolution {
    /// A resolution of the queued requirements, with nothing installed yet.
    pub fn new(queue: std::collections::VecDeque<QueueItem>) -> (r: Self)
        ensures
            r.queue == queue,
            r.installed@.len() == 0,
            r.visited@.len() == 0,
            r.pending is None,
    {
        Resolution { queue, installed: StrMap::new(), visited: Vec::new(), pending: None }
    }
}

impl Resolver {
    /// The version the lockfile holds for the item, when it satisfies `req`.
    fn locked(&self, parent: &String, key: &String, req: &String) -> (r: Option<String>)
        ensures
            opt_text(r) == locked_version(self.existing_lock, parent@, key@, req@),
    {
        let lock = match &self.existing_lock {
            Some(l) => l,
            None => {
                return None;
            },
        };
        proof {
            reveal_strlit("node_modules/");
            reveal_strlit("/node_modules/");
        }
        let top = concat(&chars_of("node_modules/"), &chars_of(key.as_str()));
        let pc = chars_of(parent.as_str());
        let check = if pc.len() == 0 {
            concat(&chars_of("node_modules/"), &chars_of(key.as_str()))
        } else {
            let a = concat(&chars_of(parent.as_str()), &chars_of("/node_modules/"));
            concat(&a, &chars_of(key.as_str()))
        };
        let entry: Option<&LockPackage> = match lock.packages.get(&check) {
            Some(e) => Some(e),
            None => lock.packages.get(&top),
        };
        match entry {
            Some(e) => match &e.version {
                Some(v) => {
                    let sp = SemverSpec::new(req.as_str());
                    if sp.matches(v.as_str()) {
                        Some(v.clone())
                    } else {
                        None
                    }
                },
                None => None,
            },
            None => None,
        }
    }

    /// Takes the next requirement off the queue and says what it needs from
    /// outside; `None` when the queue is empty.
    pub fn next_fetch(
        &self,
        manifests: &[PackageJson],
        catalogs: &StrMap<StrMap<String>>,
        st: &mut Resolution,
    ) -> (r: Option<Fetch>)
        requires
            old(st).pending is None,
        ensures
            final(st).installed == old(st).installed,
            final(st).visited == old(st).visited,
            old(st).queue@.len() == 0 ==> r is None && final(st).queue@ == old(st).queue@
                && final(st).pending is None,
            old(st).queue@.len() > 0 ==> {
                &&& items_view(final(st).queue@) == items_view(old(st).queue@).drop_first()
                &&& final(st).pending is Some
                &&& r is Some
                &&& pending_for(
                    *self,
                    manifests@,
                    catalogs@,
                    old(st).queue@[0]@,
                    final(st).pending->0,
                )
                &&& fetch_for(final(st).pending->0.spec, r->0)
            },
    {
        let ghost q0 = st.queue@;
        let popped = st.queue.pop_front();
        let mut item = match popped {
            Some(it) => it,
            None => {
                return None;
            },
        };
        proof {
            assert(items_view(st.queue@) =~= items_view(q0).drop_first());
        }
        let ghost orig = item@;
        let req = self.overridden_requirement(manifests, &item);
        item.req = req;
        assert(item@ == with_req(orig, overridden_req(self.overrides@, manifests@, orig)));
        let spec = parse_dependency_req_with_catalogs(
            item.dep_key.as_str(),
            item.req.as_str(),
            Some(catalogs),
        );
        let fetch = if spec.is_local_file {
            Fetch::LocalManifest { path: spec.version_req.clone() }
        } else if spec.is_git {
            let (url, committish) = normalize_git_url(spec.version_req.as_str());
            Fetch::GitRepo { url, committish }
        } else if spec.is_tarball_url {
            Fetch::Tarball { url: spec.version_req.clone() }
        } else {
            Fetch::Metadata { name: spec.registry_name.clone() }
        };
        let chosen = if spec.is_local_file || spec.is_git || spec.is_tarball_url {
            None
        } else {
            self.locked(&item.parent_path, &item.dep_key, &spec.version_req)
        };
        st.pending = Some(Pending { item, spec, chosen });
        Some(fetch)
    }
}

pub open spec fn or_text(o: Option<String>, d: Seq<char>) -> Seq<char> {
    match o {
        Some(s) => s@,
        None => d,
    }
}

pub open spec fn deps_view(o: Option<StrMap<String>>) -> Seq<(String, String)> {
    match o {
        Some(m) => m@,
        None => Seq::empty(),
    }
}

/// The node installed at the top level for a local, git or tarball dependency,
/// from the manifest found there (a missing one names nothing).
pub open spec fn direct_node(
    n: ResolvedNode,
    item: ItemView,
    manifest: Option<PackageJson>,
    resolved_url: Seq<char>,
    integrity: Seq<char>,
    is_local: bool,
    source: Option<Seq<char>>,
) -> bool {
    let (name, version, deps, bin) = match manifest {
        Some(m) => (m.name, m.version, m.dependencies, m.bin),
        None => (None, None, None, None),
    };
    &&& n.name@ == or_text(name, item.dep_key)
    &&& n.version@ == or_text(version, "1.0.0"@)
    &&& n.resolved_url@ == resolved_url
    &&& n.integrity@ == integrity
    &&& n.dev == item.is_dev
    &&& n.optional == item.is_optional
    &&& n.peer == item.is_peer
    &&& n.is_local_file == is_local
    &&& opt_text(n.local_source_path) == source
    &&& n.dependencies@ == deps_view(deps)
    &&& n.bin == bin
    &&& !n.has_install_script
    &&& n.engines is None
    &&& n.os is None
    &&& n.cpu is None
    &&& n.install_path@ == top_path(item.dep_key)
}

/// `st` after the pending item was settled by putting `n` at `path`.
pub open spec fn placed(pre: Resolution, post: Resolution, path: Seq<char>, n: ResolvedNode) -> bool {
    &&& lookup(post.installed@, path) == Some(n)
    &&& forall|q: Seq<char>| q != path ==> lookup(post.installed@, q) == lookup(pre.installed@, q)
}

fn or_default_text(o: Option<String>, d: &str) -> (r: String)
    ensures
        r@ == or_text(o, d@),
{
    match o {
        Some(s) => s,
        None => string_of(chars_of(d)),
    }
}

pub(crate) fn top_path_of(key: &String) -> (r: String)
    ensures
        r@ == top_path(key@),
{
    proof {
        reveal_strlit("node_modules/");
    }
    string_of(concat(&chars_of("node_modules/"), &chars_of(key.as_str())))
}

fn direct_node_of(
    item: &QueueItem,
    manifest: Option<PackageJson>,
    resolved_url: String,
    integrity: String,
    is_local: bool,
    source: Option<String>,
) -> (n: ResolvedNode)
    ensures
        direct_node(n, item@, manifest, resolved_url@, integrity@, is_local, opt_text(source)),
{
    let (name, version, deps, bin) = match manifest {
        Some(m) => (m.name, m.version, m.dependencies, m.bin),
        None => (None, None, None, None),
    };
    proof {
        reveal_strlit("1.0.0");
    }
    let dependencies = match deps {
        Some(d) => d,
        None => StrMap::new(),
    };
    ResolvedNode {
        name: or_default_text(name, item.dep_key.as_str()),
        version: or_default_text(version, "1.0.0"),
        resolved_url,
        integrity,
        dev: item.is_dev,
        optional: item.is_optional,
        peer: item.is_peer,
        is_local_file: is_local,
        local_source_path: source,
        dependencies,
        bin,
        has_install_script: false,
        engines: None,
        os: None,
        cpu: None,
        install_path: top_path_of(&item.dep_key),
    }
}

impl Resolution {
    /// The pending `file:` dependency, given the manifest of its directory
    /// (`None` when it has none) and that directory's path.
    pub fn local_fetched(&mut self, manifest: Option<PackageJson>, source_path: String) -> (r: Result<
        (),
        ResolveError,
    >)
        requires
            old(self).pending matches Some(p) && p.spec.is_local_file,
        ensures
            final(self).pending is None,
            final(self).queue == old(self).queue,
            final(self).visited == old(self).visited,
            manifest is None ==> (r matches Err(ResolveError::LocalPackageMissing { path }) && path
                == source_path) && final(self).installed == old(self).installed,
            manifest is Some ==> r is Ok && (lookup(
                final(self).installed@,
                top_path(old(self).pending->0.item.dep_key@),
            ) matches Some(n) && direct_node(
                n,
                old(self).pending->0.item@,
                manifest,
                "file:"@ + old(self).pending->0.spec.version_req@,
                Seq::empty(),
                true,
                Some(source_path@),
            )),
            manifest is Some ==> forall|q: Seq<char>|
                q != top_path(old(self).pending->0.item.dep_key@) ==> lookup(final(self).installed@, q)
                    == lookup(old(self).installed@, q),
    {
        let p = self.pending.take().unwrap();
        if manifest.is_none() {
            return Err(ResolveError::LocalPackageMissing { path: source_path });
        }
        proof {
            reveal_strlit("file:");
            reveal_strlit("");
        }
        let url = string_of(concat(&chars_of("file:"), &chars_of(p.spec.version_req.as_str())));
        let node = direct_node_of(&p.item, manifest, url, String::new(), true, Some(source_path));
        let path = top_path_of(&p.item.dep_key);
        self.installed.insert(path, node);
        Ok(())
    }

    /// The pending git dependency, given the checkout's directory, the commit
    /// it is at, and the manifest found there.
    pub fn git_fetched(&mut self, repo_path: String, commit: String, manifest: Option<PackageJson>)
        requires
            old(self).pending matches Some(p) && p.spec.is_git && !p.spec.is_local_file,
        ensures
            final(self).pending is None,
            final(self).queue == old(self).queue,
            final(self).visited == old(self).visited,
            lookup(final(self).installed@, top_path(old(self).pending->0.item.dep_key@)) matches Some(
                n,
            ) && direct_node(
                n,
                old(self).pending->0.item@,
                manifest,
                "git+"@ + git_clone_url(old(self).pending->0.spec.version_req@) + "#"@ + commit@,
                Seq::empty(),
                true,
                Some(repo_path@),
            ),
            forall|q: Seq<char>|
                q != top_path(old(self).pending->0.item.dep_key@) ==> lookup(final(self).installed@, q)
                    == lookup(old(self).installed@, q),
    {
        let p = self.pending.take().unwrap();
        proof {
            reveal_strlit("git+");
            reveal_strlit("#");
        }
        let (norm_url, _) = normalize_git_url(p.spec.version_req.as_str());
        let a = concat(&chars_of("git+"), &chars_of(norm_url.as_str()));
        let b = concat(&a, &chars_of("#"));
        let url = string_of(concat(&b, &chars_of(commit.as_str())));
        let node = direct_node_of(&p.item, manifest, url, String::new(), true, Some(repo_path));
        let path = top_path_of(&p.item.dep_key);
        self.installed.insert(path, node);
    }

    /// The pending tarball dependency, given the tarball's bytes and the manifest in it.
    pub fn tarball_fetched(&mut self, bytes: &[u8], manifest: Option<PackageJson>)
        requires
            old(self).pending matches Some(p) && p.spec.is_tarball_url && !p.spec.is_git
                && !p.spec.is_local_file,
        ensures
            final(self).pending is None,
            final(self).queue == old(self).queue,
            final(self).visited == old(self).visited,
            lookup(final(self).installed@, top_path(old(self).pending->0.item.dep_key@)) matches Some(
                n,
            ) && direct_node(
                n,
                old(self).pending->0.item@,
                manifest,
                old(self).pending->0.spec.version_req@,
                "sha512-"@ + base64_of(sha512_of(bytes@)),
                false,
                None,
            ),
            forall|q: Seq<char>|
                q != top_path(old(self).pending->0.item.dep_key@) ==> lookup(final(self).installed@, q)
                    == lookup(old(self).installed@, q),
    {
        let p = self.pending.take().unwrap();
        let integrity = sha512_integrity(bytes);
        let node = direct_node_of(&p.item, manifest, p.spec.version_req.clone(), integrity, false, None);
        let path = top_path_of(&p.item.dep_key);
        self.installed.insert(path, node);
    }
}

pub open spec fn visited_view(v: Seq<(String, String)>) -> Seq<(Seq<char>, Seq<char>)> {
    v.map_values(|e: (String, String)| (e.0@, e.1@))
}

/// The integrity npm records: the document's own, else its SHA-1 `shasum`, else none.
pub open spec fn integrity_text(d: crate::network::registry::DistMetadata) -> Seq<char> {
    match d.integrity {
        Some(i) => i@,
        None => match d.shasum {
            Some(h) => "sha1-"@ + h@,
            None => Seq::empty(),
        },
    }
}

/// The version runs a script when installed.
pub open spec fn runs_install_script(scripts: Option<StrMap<String>>) -> bool {
    match scripts {
        Some(m) => has_key(m@, "preinstall"@) || has_key(m@, "install"@) || has_key(m@, "postinstall"@),
        None => false,
    }
}

/// The node installed for a registry version.
pub open spec fn registry_node(
    n: ResolvedNode,
    item: ItemView,
    name: Seq<char>,
    version: Seq<char>,
    vm: RegistryVersionMetadata,
    path: Seq<char>,
) -> bool {
    &&& n.name@ == name
    &&& n.version@ == version
    &&& n.resolved_url@ == vm.dist.tarball@
    &&& n.integrity@ == integrity_text(vm.dist)
    &&& n.dev == item.is_dev
    &&& n.optional == item.is_optional
    &&& n.peer == item.is_peer
    &&& !n.is_local_file
    &&& n.local_source_path is None
    &&& n.dependencies@ == deps_view(vm.dependencies)
    &&& n.bin == vm.bin
    &&& n.has_install_script == runs_install_script(vm.scripts)
    &&& n.engines == vm.engines
    &&& n.os == vm.os
    &&& n.cpu == vm.cpu
    &&& n.install_path@ == path
}

/// Where a version goes: the top level, unless another version is there, in
/// which case below the package that asked for it (a root requirement replaces
/// the top-level one); `None` when the same version is already at the top level.
pub open spec fn install_path_choice(
    installed: Seq<(String, ResolvedNode)>,
    item: ItemView,
    version: Seq<char>,
) -> Option<Seq<char>> {
    let top = top_path(item.dep_key);
    match lookup(installed, top) {
        Some(e) => if e.version@ == version {
            None
        } else if item.parent_path.len() == 0 {
            Some(top)
        } else {
            Some(nested_path(item.parent_path, item.dep_key))
        },
        None => Some(top),
    }
}

/// Requirements of an installed package, as queue items below it.
pub open spec fn child_items(
    entries: Seq<(String, String)>,
    is_dev: bool,
    is_optional: bool,
    parent: Seq<char>,
    cycle: Seq<Seq<char>>,
) -> Seq<ItemView> {
    entries.map_values(
        |e: (String, String)|
            ItemView {
                dep_key: e.0@,
                req: e.1@,
                is_dev,
                is_optional,
                is_peer: false,
                parent_path: parent,
                cycle_path: cycle,
            },
    )
}

/// `peerDependenciesMeta` marks the peer optional.
pub open spec fn peer_optional(pm: Option<JsonValue>, dep: Seq<char>) -> bool {
    match pm {
        Some(v) => match json_member(v, dep) {
            Some(o) => match json_member(o, "optional"@) {
                Some(b) => json_bool(b) == Some(true),
                None => false,
            },
            None => false,
        },
        None => false,
    }
}

pub open spec fn peer_item(e: (String, String), pm: Option<JsonValue>, is_dev: bool, cycle: Seq<Seq<char>>) -> ItemView {
    ItemView {
        dep_key: e.0@,
        req: e.1@,
        is_dev,
        is_optional: peer_optional(pm, e.0@),
        is_peer: true,
        parent_path: Seq::empty(),
        cycle_path: cycle,
    }
}

/// The top-level package already satisfies the peer requirement.
pub open spec fn peer_satisfied(installed: Seq<(String, ResolvedNode)>, e: (String, String)) -> bool {
    match lookup(installed, top_path(e.0@)) {
        Some(n) => req_admits(e.1@, n.version@),
        None => false,
    }
}

/// Peer requirements queued at the root, but for those the top level satisfies.
pub open spec fn peer_items(
    entries: Seq<(String, String)>,
    pm: Option<JsonValue>,
    is_dev: bool,
    cycle: Seq<Seq<char>>,
    installed: Seq<(String, ResolvedNode)>,
) -> Seq<ItemView>
    decreases entries.len(),
{
    if entries.len() == 0 {
        Seq::empty()
    } else {
        let rest = peer_items(entries.drop_last(), pm, is_dev, cycle, installed);
        if peer_satisfied(installed, entries.last()) {
            rest
        } else {
            rest.push(peer_item(entries.last(), pm, is_dev, cycle))
        }
    }
}

/// What an installed version queues: its dependencies and optional dependencies
/// below it, then its unsatisfied peers at the root.
pub open spec fn children(
    item: ItemView,
    vm: RegistryVersionMetadata,
    path: Seq<char>,
    cycle: Seq<Seq<char>>,
    installed: Seq<(String, ResolvedNode)>,
) -> Seq<ItemView> {
    child_items(deps_view(vm.dependencies), item.is_dev, item.is_optional, path, cycle)
        + child_items(deps_view(vm.optional_dependencies), item.is_dev, true, path, cycle)
        + peer_items(deps_view(vm.peer_dependencies), vm.peer_dependencies_meta, item.is_dev, cycle, installed)
}

/// The version fits the host platform.
pub open spec fn platform_ok(r: Resolver, vm: RegistryVersionMetadata) -> bool {
    list_allows(opt_seq(vm.os), npm_os(r.host_os@)) && list_allows(opt_seq(vm.cpu), npm_cpu(r.host_arch@))
}

/// `post` is `pre` after installing `version` of `name` for `item`: skipped when
/// an optional item does not fit the platform, when the same version is already
/// at the top level, or when the package is already on the item's path from the
/// root; otherwise placed, and its requirements queued the first time it is
/// placed at that path.
pub open spec fn installed_version(
    r: Resolver,
    pre: Resolution,
    post: Resolution,
    item: ItemView,
    name: Seq<char>,
    version: Seq<char>,
    vm: RegistryVersionMetadata,
) -> bool {
    let ck = name + "@"@ + version;
    &&& post.pending is None
    &&& if !platform_ok(r, vm) && item.is_optional {
        post.installed == pre.installed && post.visited == pre.visited && post.queue == pre.queue
    } else {
        match install_path_choice(pre.installed@, item, version) {
            None => post.installed == pre.installed && post.visited == pre.visited && post.queue
                == pre.queue,
            Some(path) => if item.cycle_path.contains(ck) {
                post.installed == pre.installed && post.visited == pre.visited && post.queue
                    == pre.queue
            } else {
                let is_new = !visited_view(pre.visited@).contains((path, version));
                &&& lookup(post.installed@, path) matches Some(n) && registry_node(
                    n,
                    item,
                    name,
                    version,
                    vm,
                    path,
                )
                &&& forall|q: Seq<char>| q != path ==> lookup(post.installed@, q) == lookup(pre.installed@, q)
                &&& visited_view(post.visited@) == if is_new {
                    visited_view(pre.visited@).push((path, version))
                } else {
                    visited_view(pre.visited@)
                }
                &&& items_view(post.queue@) == items_view(pre.queue@) + if is_new {
                    children(item, vm, path, item.cycle_path.push(ck), post.installed@)
                } else {
                    Seq::empty()
                }
            },
        }
    }
}

/// `(b + 1)` to the power `e`: the most items that `e` more levels of a
/// dependency tree can hold when no version lists more than `b` dependencies.
pub open spec fn levels(b: nat, e: nat) -> nat
    decreases e,
{
    if e == 0 {
        1
    } else {
        (b + 1) * levels(b, (e - 1) as nat)
    }
}

/// The weight of a queued item whose chain from the root is `chain`, when the
/// registry serves `n` versions in all: the levels its chain can still grow by.
pub open spec fn chain_weight(chain: Seq<Seq<char>>, n: nat, b: nat) -> nat {
    if chain.len() <= n {
        levels(b, (n - chain.len()) as nat)
    } else {
        1
    }
}

/// The total weight of the queue.
pub open spec fn queue_weight(q: Seq<ItemView>, n: nat, b: nat) -> nat
    decreases q.len(),
{
    if q.len() == 0 {
        0
    } else {
        chain_weight(q[0].cycle_path, n, b) + queue_weight(q.drop_first(), n, b)
    }
}

/// Every queued chain is free of repeats and made of `name@version`s that the
/// registry serves.
pub open spec fn chains_within(q: Seq<ItemView>, served: Set<Seq<char>>) -> bool {
    &&& forall|i: int| 0 <= i < q.len() ==> (#[trigger] q[i]).cycle_path.no_duplicates()
    &&& forall|i: int, j: int|
        0 <= i < q.len() && 0 <= j < q[i].cycle_path.len() ==> served.contains(
            #[trigger] q[i].cycle_path[j],
        )
}

/// How many requirements a version lists: dependencies, optional ones and peers.
pub open spec fn dependency_count(vm: RegistryVersionMetadata) -> nat {
    deps_view(vm.dependencies).len() + deps_view(vm.optional_dependencies).len() + deps_view(
        vm.peer_dependencies,
    ).len()
}

/// One round of resolution: `next_fetch` took the first queued item, and the
/// step that settled it either queued nothing (a skip, a local, git or
/// tarball dependency) or installed a version `name@version` that the
/// registry serves (in `served`) and that lists at most `b` requirements.
pub open spec fn resolution_round(
    r: Resolver,
    served: Set<Seq<char>>,
    b: nat,
    pre: Resolution,
    post: Resolution,
) -> bool {
    &&& pre.queue@.len() > 0
    &&& {
        ||| items_view(post.queue@) == items_view(pre.queue@).drop_first()
        ||| exists|
            mid: Resolution,
            item: ItemView,
            name: Seq<char>,
            version: Seq<char>,
            vm: RegistryVersionMetadata,
        |
            #![trigger installed_version(r, mid, post, item, name, version, vm)]
            {
                &&& items_view(mid.queue@) == items_view(pre.queue@).drop_first()
                &&& item.cycle_path == items_view(pre.queue@)[0].cycle_path
                &&& served.contains(name + "@"@ + version)
                &&& dependency_count(vm) <= b
                &&& installed_version(r, mid, post, item, name, version, vm)
            }
    }
}

fn push_children(
    q: &mut std::collections::VecDeque<QueueItem>,
    entries: &Option<StrMap<String>>,
    is_dev: bool,
    is_optional: bool,
    parent: &String,
    cycle: &Vec<String>,
)
    ensures
        items_view(final(q)@) == items_view(old(q)@) + child_items(
            deps_view(*entries),
            is_dev,
            is_optional,
            parent@,
            texts(cycle@),
        ),
{
    let ghost start = items_view(q@);
    let ghost all = child_items(deps_view(*entries), is_dev, is_optional, parent@, texts(cycle@));
    match entries {
        Some(t) => {
            let es = t.entries();
            let mut i: usize = 0;
            while i < es.len()
                invariant
                    i <= es@.len(),
                    es@ == t@,
                    *entries == Some(*t),
                    all == child_items(deps_view(*entries), is_dev, is_optional, parent@, texts(cycle@)),
                    items_view(q@) == start + all.subrange(0, i as int),
                decreases es@.len() - i,
            {
                let item = QueueItem {
                    dep_key: es[i].0.clone(),
                    req: es[i].1.clone(),
                    is_dev,
                    is_optional,
                    is_peer: false,
                    parent_path: parent.clone(),
                    cycle_path: copy_texts(cycle),
                };
                let ghost before = items_view(q@);
                assert(all.len() == es@.len());
                assert(all[i as int] == item@);
                q.push_back(item);
                assert(items_view(q@) =~= before.push(item@));
                assert(all.subrange(0, i + 1) =~= all.subrange(0, i as int).push(item@));
                i = i + 1;
            }
            assert(all.subrange(0, es@.len() as int) =~= all);
        },
        None => {
            assert(all =~= Seq::<ItemView>::empty());
            assert(items_view(q@) + all =~= items_view(q@));
        },
    }
}

fn peer_optional_of(pm: &Option<JsonValue>, dep: &String) -> (b: bool)
    ensures
        b == peer_optional(*pm, dep@),
{
    proof {
        reveal_strlit("optional");
    }
    match pm {
        Some(v) => match v.get(dep.as_str()) {
            Some(o) => match o.get("optional") {
                Some(b) => match b.as_bool() {
                    Some(x) => x,
                    None => false,
                },
                None => false,
            },
            None => false,
        },
        None => false,
    }
}

fn push_peers(
    q: &mut std::collections::VecDeque<QueueItem>,
    entries: &Option<StrMap<String>>,
    pm: &Option<JsonValue>,
    is_dev: bool,
    cycle: &Vec<String>,
    installed: &StrMap<ResolvedNode>,
)
    ensures
        items_view(final(q)@) == items_view(old(q)@) + peer_items(
            deps_view(*entries),
            *pm,
            is_dev,
            texts(cycle@),
            installed@,
        ),
{
    let ghost start = items_view(q@);
    let ghost es_all = deps_view(*entries);
    match entries {
        Some(t) => {
            let es = t.entries();
            let mut i: usize = 0;
            assert(es@.subrange(0, 0) =~= Seq::<(String, String)>::empty());
            while i < es.len()
                invariant
                    i <= es@.len(),
                    es@ == t@,
                    *entries == Some(*t),
                    items_view(q@) == start + peer_items(
                        es@.subrange(0, i as int),
                        *pm,
                        is_dev,
                        texts(cycle@),
                        installed@,
                    ),
                decreases es@.len() - i,
            {
                let ghost pre = es@.subrange(0, i as int);
                let ghost now = es@.subrange(0, i + 1);
                assert(now.drop_last() =~= pre);
                assert(now.last() == es@[i as int]);
                let top = top_path_of(&es[i].0);
                let satisfied = match installed.get(&chars_of(top.as_str())) {
                    Some(n) => {
                        let sp = SemverSpec::new(es[i].1.as_str());
                        sp.matches(n.version.as_str())
                    },
                    None => false,
                };
                if !satisfied {
                    let item = QueueItem {
                        dep_key: es[i].0.clone(),
                        req: es[i].1.clone(),
                        is_dev,
                        is_optional: peer_optional_of(pm, &es[i].0),
                        is_peer: true,
                        parent_path: String::new(),
                        cycle_path: copy_texts(cycle),
                    };
                    proof {
                        reveal_strlit("");
                    }
                    assert(item@.parent_path =~= Seq::<char>::empty());
                    assert(item@ == peer_item(es@[i as int], *pm, is_dev, texts(cycle@)));
                    let ghost before = items_view(q@);
                    q.push_back(item);
                    assert(items_view(q@) =~= before.push(item@));
                }
                i = i + 1;
            }
            assert(es@.subrange(0, es@.len() as int) =~= es@);
        },
        None => {
            assert(items_view(q@) + Seq::<ItemView>::empty() =~= items_view(q@));
        },
    }
}

fn contains_text(v: &Vec<String>, t: &Vec<char>) -> (b: bool)
    ensures
        b == texts(v@).contains(t@),
{
    let mut i: usize = 0;
    while i < v.len()
        invariant
            i <= v@.len(),
            forall|j: int| 0 <= j < i ==> v@[j]@ != t@,
        decreases v@.len() - i,
    {
        if chars_eq(&chars_of(v[i].as_str()), t) {
            assert(texts(v@)[i as int] == t@);
            return true;
        }
        i = i + 1;
    }
    proof {
        if texts(v@).contains(t@) {
            let j = choose|j: int| 0 <= j < texts(v@).len() && texts(v@)[j] == t@;
            assert(v@[j]@ == t@);
        }
    }
    false
}

fn visited_contains(v: &Vec<(String, String)>, path: &Vec<char>, version: &Vec<char>) -> (b: bool)
    ensures
        b == visited_view(v@).contains((path@, version@)),
{
    let mut i: usize = 0;
    while i < v.len()
        invariant
            i <= v@.len(),
            forall|j: int| 0 <= j < i ==> visited_view(v@)[j] != (path@, version@),
        decreases v@.len() - i,
    {
        if chars_eq(&chars_of(v[i].0.as_str()), path) && chars_eq(&chars_of(v[i].1.as_str()), version) {
            assert(visited_view(v@)[i as int] == (path@, version@));
            return true;
        }
        i = i + 1;
    }
    false
}

fn has_script(scripts: &Option<StrMap<String>>) -> (b: bool)
    ensures
        b == runs_install_script(*scripts),
{
    match scripts {
        Some(m) => m.contains_key(&chars_of("preinstall")) || m.contains_key(&chars_of("install"))
            || m.contains_key(&chars_of("postinstall")),
        None => false,
    }
}

fn integrity_of(d: &crate::network::registry::DistMetadata) -> (r: String)
    ensures
        r@ == integrity_text(*d),
{
    match &d.integrity {
        Some(i) => i.clone(),
        None => match &d.shasum {
            Some(h) => {
                proof {
                    reveal_strlit("sha1-");
                }
                string_of(concat(&chars_of("sha1-"), &chars_of(h.as_str())))
            },
            None => {
                proof {
                    reveal_strlit("");
                }
                let e = String::new();
                assert(e@ =~= Seq::<char>::empty());
                e
            },
        },
    }
}

impl Resolver {
    /// Installs `version` of `name` for `item` (see `installed_version`).
    fn install_version(
        &self,
        st: &mut Resolution,
        item: QueueItem,
        name: String,
        version: String,
        vm: RegistryVersionMetadata,
    )
        requires
            old(st).pending is None,
        ensures
            installed_version(*self, *old(st), *final(st), item@, name@, version@, vm),
    {
        let ghost vm0 = vm;
        let ghost pre = *st;
        let fits = is_os_supported(&vm.os, self.host_os.as_str()) && is_cpu_supported(
            &vm.cpu,
            self.host_arch.as_str(),
        );
        if !fits && item.is_optional {
            return;
        }
        let top = top_path_of(&item.dep_key);
        let ver = chars_of(version.as_str());
        let path: String = match self_installed_version(&st.installed, &top) {
            Some(existing) => {
                if chars_eq(&existing, &ver) {
                    return;
                } else if chars_of(item.parent_path.as_str()).len() == 0 {
                    top
                } else {
                    proof {
                        reveal_strlit("/node_modules/");
                    }
                    let a = concat(&chars_of(item.parent_path.as_str()), &chars_of("/node_modules/"));
                    string_of(concat(&a, &chars_of(item.dep_key.as_str())))
                }
            },
            None => top,
        };
        assert(install_path_choice(pre.installed@, item@, version@) == Some(path@));
        proof {
            reveal_strlit("@");
        }
        let ck = concat(&concat(&chars_of(name.as_str()), &chars_of("@")), &ver);
        if contains_text(&item.cycle_path, &ck) {
            return;
        }
        let mut next_cycle = copy_texts(&item.cycle_path);
        let ck_text = text_of(&ck);
        next_cycle.push(ck_text);
        assert(texts(next_cycle@) =~= texts(item.cycle_path@).push(ck@));
        let path_chars = chars_of(path.as_str());
        let is_new = !visited_contains(&st.visited, &path_chars, &ver);
        if is_new {
            let ghost vb = visited_view(st.visited@);
            st.visited.push((path.clone(), version.clone()));
            assert(visited_view(st.visited@) =~= vb.push((path@, version@)));
        }
        let has_install_script = has_script(&vm.scripts);
        let integrity = integrity_of(&vm.dist);
        let dependencies = match &vm.dependencies {
            Some(d) => d.duplicate(),
            None => StrMap::new(),
        };
        let RegistryVersionMetadata {
            name: _,
            version: _,
            description: _,
            main: _,
            bin,
            dist,
            dependencies: deps,
            dev_dependencies: _,
            peer_dependencies,
            peer_dependencies_meta,
            optional_dependencies,
            engines,
            os,
            cpu,
            scripts: _,
        } = vm;
        let node = ResolvedNode {
            name,
            version,
            resolved_url: dist.tarball,
            integrity,
            dev: item.is_dev,
            optional: item.is_optional,
            peer: item.is_peer,
            is_local_file: false,
            local_source_path: None,
            dependencies,
            bin,
            has_install_script,
            engines,
            os,
            cpu,
            install_path: path.clone(),
        };
        let ghost q0 = items_view(st.queue@);
        st.installed.insert(path.clone(), node);
        assert(lookup(st.installed@, path@) matches Some(n) && registry_node(n, item@, name@, version@, vm0, path@));
        if is_new {
            push_children(&mut st.queue, &deps, item.is_dev, item.is_optional, &path, &next_cycle);
            push_children(&mut st.queue, &optional_dependencies, item.is_dev, true, &path, &next_cycle);
            push_peers(
                &mut st.queue,
                &peer_dependencies,
                &peer_dependencies_meta,
                item.is_dev,
                &next_cycle,
                &st.installed,
            );
            assert(items_view(st.queue@) =~= q0 + children(item@, vm0, path@, texts(next_cycle@), st.installed@));
        } else {
            assert(items_view(st.queue@) =~= q0 + Seq::<ItemView>::empty());
        }
    }
}

/// The version of the package installed at `path`.
fn self_installed_version(installed: &StrMap<ResolvedNode>, path: &String) -> (r: Option<Vec<char>>)
    ensures
        match lookup(installed@, path@) {
            Some(n) => r is Some && r->0@ == n.version@,
            None => r is None,
        },
{
    match installed.get(&chars_of(path.as_str())) {
        Some(n) => Some(chars_of(n.version.as_str())),
        None => None,
    }
}

/// `vs` are the texts of the keys of `m`, in order.
pub open spec fn key_texts_are<V>(vs: Seq<&str>, m: Seq<(String, V)>) -> bool {
    vs.len() == m.len() && forall|i: int| 0 <= i < m.len() ==> (#[trigger] vs[i])@ == m[i].0@
}

/// `t` is what `SemverSpec::select_best` picks for `req` among the published versions.
pub open spec fn best_version(m: RegistryPackageMetadata, req: Seq<char>, t: Option<Seq<char>>) -> bool {
    exists|vs: Seq<&str>|
        #![trigger key_texts_are(vs, m.versions@)]
        key_texts_are(vs, m.versions@) && match t {
            Some(v) => exists|i: int|
                0 <= i < vs.len() && v == vs[i]@ && #[trigger] best_choice(
                    trim(req),
                    complex_range(trim(req)),
                    vs,
                    i,
                ),
            None => forall|j: int| !is_candidate(trim(req), complex_range(trim(req)), vs, j),
        }
}

/// The version a registry requirement asks for: a dist-tag named by the
/// requirement, the `latest` tag for `latest`, `*` or nothing, else the best
/// matching published version.
pub open spec fn target_ok(m: RegistryPackageMetadata, req: Seq<char>, t: Option<Seq<char>>) -> bool {
    if has_key(m.dist_tags@, req) {
        t == text_at(m.dist_tags@, req)
    } else if req == "latest"@ || req == "*"@ || req.len() == 0 {
        t == text_at(m.dist_tags@, "latest"@)
    } else {
        best_version(m, req, t)
    }
}

pub open spec fn skipped(pre: Resolution, post: Resolution) -> bool {
    &&& post.installed == pre.installed
    &&& post.visited == pre.visited
    &&& post.queue == pre.queue
    &&& post.pending is None
}

/// What the registry document (or the error fetching it) does to a pending
/// registry requirement.
pub open spec fn registry_outcome(
    r: Resolver,
    pre: Resolution,
    post: Resolution,
    meta: Result<RegistryPackageMetadata, String>,
    out: Result<Option<Fetch>, ResolveError>,
) -> bool {
    let p = pre.pending->0;
    let item = p.item@;
    let name = p.spec.registry_name@;
    let req = p.spec.version_req@;
    match meta {
        Err(msg) => if item.is_optional {
            out == Ok::<Option<Fetch>, ResolveError>(None) && skipped(pre, post)
        } else {
            (out matches Err(ResolveError::Fetch { message }) && message == msg)
        },
        Ok(m) => match p.chosen {
            Some(v) => match lookup(m.versions@, v@) {
                Some(vm) => out == Ok::<Option<Fetch>, ResolveError>(None) && installed_version(
                    r,
                    pre,
                    post,
                    item,
                    name,
                    v@,
                    vm,
                ),
                None => if item.is_optional {
                    out == Ok::<Option<Fetch>, ResolveError>(None) && skipped(pre, post)
                } else {
                    (out matches Err(ResolveError::VersionNotFound { version, name: n }) && version@
                        == v@ && n@ == name)
                },
            },
            None => exists|t: Option<Seq<char>>|
                #![trigger target_ok(m, req, t)]
                target_ok(m, req, t) && match t {
                    None => if item.is_optional {
                        out == Ok::<Option<Fetch>, ResolveError>(None) && skipped(pre, post)
                    } else {
                        (out matches Err(ResolveError::NoMatchingVersion { name: n, req: rq }) && n@
                            == name && rq@ == req)
                    },
                    Some(v) => match lookup(m.versions@, v) {
                        Some(vm) => out == Ok::<Option<Fetch>, ResolveError>(None)
                            && installed_version(r, pre, post, item, name, v, vm),
                        None => {
                            &&& (out matches Ok(Some(Fetch::Metadata { name: n })) && n@ == name)
                            &&& post.installed == pre.installed
                            &&& post.visited == pre.visited
                            &&& post.queue == pre.queue
                            &&& (post.pending matches Some(p2) && p2.item == p.item && p2.spec
                                == p.spec && opt_text(p2.chosen) == Some(v))
                        },
                    },
                },
        },
    }
}

impl Resolver {
    /// The version a registry requirement asks for (see `target_ok`).
    fn target_version(&self, m: &RegistryPackageMetadata, req: &String) -> (r: Option<String>)
        ensures
            target_ok(*m, req@, opt_text(r)),
    {
        let rq = chars_of(req.as_str());
        if let Some(t) = m.dist_tags.get(&rq) {
            return Some(t.clone());
        }
        proof {
            reveal_strlit("latest");
            reveal_strlit("*");
        }
        if chars_eq(&rq, &chars_of("latest")) || chars_eq(&rq, &chars_of("*")) || rq.len() == 0 {
            return match m.dist_tags.get(&chars_of("latest")) {
                Some(t) => Some(t.clone()),
                None => None,
            };
        }
        let es = m.versions.entries();
        let mut keys: Vec<&str> = Vec::new();
        let mut i: usize = 0;
        while i < es.len()
            invariant
                i <= es@.len(),
                es@ == m.versions@,
                keys@.len() == i,
                forall|j: int| 0 <= j < i ==> (#[trigger] keys@[j])@ == es@[j].0@,
            decreases es@.len() - i,
        {
            keys.push(es[i].0.as_str());
            i = i + 1;
        }
        assert(key_texts_are(keys@, m.versions@));
        let sp = SemverSpec::new(req.as_str());
        let picked = sp.select_best(keys.as_slice());
        let r = match picked {
            Some(v) => Some(string_of(chars_of(v))),
            None => None,
        };
        assert(best_version(*m, req@, opt_text(r)));
        r
    }

    /// Settles the pending registry requirement with the registry's document for
    /// the package (or the error that fetching it gave); `Some` when the document
    /// must be fetched again (see `registry_outcome`).
    pub fn metadata_fetched(
        &self,
        st: &mut Resolution,
        meta: Result<RegistryPackageMetadata, String>,
    ) -> (out: Result<Option<Fetch>, ResolveError>)
        requires
            old(st).pending matches Some(p) && !p.spec.is_local_file && !p.spec.is_git
                && !p.spec.is_tarball_url,
        ensures
            registry_outcome(*self, *old(st), *final(st), meta, out),
    {
        let ghost pre = *st;
        let p = st.pending.take().unwrap();
        let Pending { item, spec, chosen } = p;
        let mut m = match meta {
            Ok(m) => m,
            Err(msg) => {
                if item.is_optional {
                    return Ok(None);
                } else {
                    return Err(ResolveError::Fetch { message: msg });
                }
            },
        };
        let ghost m0 = m;
        match chosen {
            Some(v) => {
                match m.versions.remove(&chars_of(v.as_str())) {
                    Some(vm) => {
                        self.install_version(st, item, spec.registry_name, v, vm);
                        Ok(None)
                    },
                    None => {
                        if item.is_optional {
                            Ok(None)
                        } else {
                            Err(ResolveError::VersionNotFound { version: v, name: spec.registry_name })
                        }
                    },
                }
            },
            None => {
                let target = self.target_version(&m, &spec.version_req);
                let ghost t = opt_text(target);
                assert(target_ok(m0, spec.version_req@, t));
                match target {
                    None => {
                        if item.is_optional {
                            Ok(None)
                        } else {
                            Err(
                                ResolveError::NoMatchingVersion {
                                    name: spec.registry_name,
                                    req: spec.version_req,
                                },
                            )
                        }
                    },
                    Some(v) => {
                        match m.versions.remove(&chars_of(v.as_str())) {
                            Some(vm) => {
                                self.install_version(st, item, spec.registry_name, v, vm);
                                Ok(None)
                            },
                            None => {
                                let name = spec.registry_name.clone();
                                st.pending = Some(Pending { item, spec, chosen: Some(v) });
                                Ok(Some(Fetch::Metadata { name }))
                            },
                        }
                    },
                }
            },
        }
    }
}

pub open spec fn table_view(t: Option<StrMap<String>>) -> Option<Seq<(String, String)>> {
    match t {
        Some(m) => Some(m@),
        None => None,
    }
}

pub open spec fn list_view(l: Option<Vec<String>>) -> Option<Seq<String>> {
    match l {
        Some(v) => Some(v@),
        None => None,
    }
}

/// The lockfile entry recorded for a resolved node.
pub open spec fn lock_entry(e: LockPackage, n: ResolvedNode) -> bool {
    &&& opt_text(e.name) == Some(n.name@)
    &&& opt_text(e.version) == Some(n.version@)
    &&& opt_text(e.resolved) == Some(n.resolved_url@)
    &&& opt_text(e.integrity) == if n.integrity@.len() == 0 {
        None
    } else {
        Some(n.integrity@)
    }
    &&& e.dev == n.dev
    &&& e.optional == n.optional
    &&& !e.dev_optional
    &&& e.has_install_script == n.has_install_script
    &&& e.license is None
    &&& (e.bin is Some) == (n.bin is Some)
    &&& (n.bin matches Some(b) ==> same_json(b, e.bin->0))
    &&& table_view(e.engines) == table_view(n.engines)
    &&& list_view(e.os) == list_view(n.os)
    &&& list_view(e.cpu) == list_view(n.cpu)
    &&& table_view(e.dependencies) == if n.dependencies@.len() == 0 {
        None
    } else {
        Some(n.dependencies@)
    }
    &&& e.dev_dependencies is None
    &&& e.peer_dependencies is None
    &&& e.peer_dependencies_meta is None
    &&& e.optional_dependencies is None
    &&& e.link is None
    &&& e.extra@.len() == 0
}

/// The root entry of the lockfile built for `m`.
pub open spec fn lock_root(e: LockPackage, m: PackageJson) -> bool {
    &&& opt_text(e.name) == Some(or_text(m.name, "app"@))
    &&& opt_text(e.version) == opt_text(m.version)
    &&& table_view(e.dependencies) == table_view(m.dependencies)
    &&& table_view(e.dev_dependencies) == table_view(m.dev_dependencies)
    &&& table_view(e.peer_dependencies) == table_view(m.peer_dependencies)
    &&& table_view(e.optional_dependencies) == table_view(m.optional_dependencies)
    &&& e.resolved is None
    &&& e.integrity is None
    &&& !e.dev && !e.optional && !e.dev_optional && !e.has_install_script
    &&& e.license is None && e.bin is None && e.engines is None && e.os is None && e.cpu is None
    &&& e.peer_dependencies_meta is None && e.link is None && e.extra@.len() == 0
}

fn copy_table(t: &Option<StrMap<String>>) -> (r: Option<StrMap<String>>)
    ensures
        table_view(r) == table_view(*t),
{
    match t {
        Some(m) => Some(m.duplicate()),
        None => None,
    }
}

fn copy_list(l: &Option<Vec<String>>) -> (r: Option<Vec<String>>)
    ensures
        list_view(r) == list_view(*l),
{
    match l {
        Some(v) => Some(copy_texts(v)),
        None => None,
    }
}

fn lock_entry_of(n: &ResolvedNode) -> (e: LockPackage)
    ensures
        lock_entry(e, *n),
{
    let mut e = LockPackage::default();
    e.name = Some(n.name.clone());
    e.version = Some(n.version.clone());
    e.resolved = Some(n.resolved_url.clone());
    e.integrity = if chars_of(n.integrity.as_str()).len() == 0 {
        None
    } else {
        Some(n.integrity.clone())
    };
    e.dev = n.dev;
    e.optional = n.optional;
    e.has_install_script = n.has_install_script;
    e.bin = match &n.bin {
        Some(b) => Some(b.copy()),
        None => None,
    };
    e.engines = copy_table(&n.engines);
    e.os = copy_list(&n.os);
    e.cpu = copy_list(&n.cpu);
    e.dependencies = if n.dependencies.len() == 0 {
        None
    } else {
        Some(n.dependencies.duplicate())
    };
    e
}

impl Resolution {
    /// The nodes installed, by install path.
    pub fn into_installed(self) -> (r: StrMap<ResolvedNode>)
        ensures
            r == self.installed,
    {
        self.installed
    }
}

/// The v3 lockfile for a manifest and the nodes resolved for it: one entry per
/// node at its install path, and a root entry from the manifest (unless a node
/// sits at the root path).
pub open spec fn built_lock(manifest: PackageJson, resolved: StrMap<ResolvedNode>, lock: PackageLock) -> bool {
    &&& lock.name@ == or_text(manifest.name, "app"@)
    &&& opt_text(lock.version) == opt_text(manifest.version)
    &&& lock.lockfile_version == 3
    &&& lock.requires is None
    &&& lock.dependencies@.len() == 0
    &&& forall|q: Seq<char>|
        #![trigger lookup(lock.packages@, q)]
        has_key(resolved@, q) ==> (lookup(lock.packages@, q) matches Some(e) && lock_entry(
            e,
            lookup(resolved@, q)->0,
        ))
    &&& !has_key(resolved@, ""@) ==> (lookup(lock.packages@, ""@) matches Some(e) && lock_root(e, manifest))
    &&& forall|q: Seq<char>|
        #![trigger lookup(lock.packages@, q)]
        !has_key(resolved@, q) && q != ""@ ==> lookup(lock.packages@, q) is None
}

impl Resolver {
    /// Build a v3 PackageLock from resolved nodes and root manifest
    pub fn build_lockfile(manifest: &PackageJson, resolved: &StrMap<ResolvedNode>) -> (lock: PackageLock)
        ensures
            built_lock(*manifest, *resolved, lock),
    {
        proof {
            reveal_strlit("app");
            reveal_strlit("");
        }
        let root_name = match &manifest.name {
            Some(n) => n.clone(),
            None => string_of(chars_of("app")),
        };
        let mut lock = PackageLock::new_v3(root_name, crate::package::lockfile::copy_opt_string(&manifest.version));
        let empty_key = chars_of("");
        let mut root = match lock.packages.remove(&empty_key) {
            Some(r) => r,
            None => LockPackage::default(),
        };
        root.dependencies = copy_table(&manifest.dependencies);
        root.dev_dependencies = copy_table(&manifest.dev_dependencies);
        root.peer_dependencies = copy_table(&manifest.peer_dependencies);
        root.optional_dependencies = copy_table(&manifest.optional_dependencies);
        let k = String::new();
        assert(k@ =~= ""@);
        lock.packages.insert(k, root);
        assert(lock_root(root, *manifest));
        let es = resolved.entries();
        let ghost p0 = lock.packages@;
        let mut i: usize = 0;
        while i < es.len()
            invariant
                i <= es@.len(),
                es@ == resolved@,
                crate::strmap::sorted_keys(es@),
                lock.name@ == or_text(manifest.name, "app"@),
                opt_text(lock.version) == opt_text(manifest.version),
                lock.lockfile_version == 3,
                lock.requires is None,
                lock.dependencies@.len() == 0,
                lookup(p0, ""@) matches Some(e) && lock_root(e, *manifest),
                forall|q: Seq<char>| q != ""@ ==> lookup(p0, q) is None,
                forall|q: Seq<char>|
                    #![trigger lookup(lock.packages@, q)]
                    (exists|j: int| 0 <= j < i && (#[trigger] es@[j]).0@ == q) ==> (lookup(
                        lock.packages@,
                        q,
                    ) matches Some(e) && lock_entry(e, lookup(resolved@, q)->0)),
                forall|q: Seq<char>|
                    #![trigger lookup(lock.packages@, q)]
                    !(exists|j: int| 0 <= j < i && (#[trigger] es@[j]).0@ == q) ==> lookup(
                        lock.packages@,
                        q,
                    ) == lookup(p0, q),
            decreases es@.len() - i,
        {
            let e = lock_entry_of(&es[i].1);
            let key = es[i].0.clone();
            let ghost prev = lock.packages@;
            lock.packages.insert(key, e);
            proof {
                crate::strmap::lemma_lookup_at(es@, i as int);
                assert forall|q: Seq<char>|
                    #![trigger lookup(lock.packages@, q)]
                    (exists|j: int| 0 <= j < i + 1 && (#[trigger] es@[j]).0@ == q) implies (lookup(
                        lock.packages@,
                        q,
                    ) matches Some(e) && lock_entry(e, lookup(resolved@, q)->0)) by {
                    if q != key@ {
                        let j = choose|j: int| 0 <= j < i + 1 && (#[trigger] es@[j]).0@ == q;
                        assert(j != i);
                        assert(exists|j: int| 0 <= j < i && (#[trigger] es@[j]).0@ == q);
                        assert(lookup(lock.packages@, q) == lookup(prev, q));
                    }
                }
                assert forall|q: Seq<char>|
                    #![trigger lookup(lock.packages@, q)]
                    !(exists|j: int| 0 <= j < i + 1 && (#[trigger] es@[j]).0@ == q) implies lookup(
                        lock.packages@,
                        q,
                    ) == lookup(p0, q) by {
                    assert(es@[i as int].0@ != q);
                    assert(lookup(lock.packages@, q) == lookup(prev, q));
                }
            }
            i = i + 1;
        }
        proof {
            assert forall|q: Seq<char>| #[trigger] has_key(resolved@, q) implies (exists|j: int|
                0 <= j < es@.len() && (#[trigger] es@[j]).0@ == q) by {
                let j = choose|j: int| 0 <= j < resolved@.len() && (#[trigger] resolved@[j]).0@ == q;
                assert(es@[j].0@ == q);
            }
            assert forall|q: Seq<char>| (exists|j: int|
                0 <= j < es@.len() && (#[trigger] es@[j]).0@ == q) implies #[trigger] has_key(resolved@, q) by {
                let j = choose|j: int| 0 <= j < es@.len() && (#[trigger] es@[j]).0@ == q;
                assert(resolved@[j].0@ == q);
            }
        }
        lock
    }
}

} // verus!
