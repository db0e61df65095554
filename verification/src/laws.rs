//! Properties that relate several operations of the library, stated over the
//! same specifications their contracts use.
use vstd::prelude::*;

use crate::network::audit::{count_of, severity_named, rank_of, AdvisoryItem, Severity};
use crate::package::lockfile::{normalized, PackageLock};
use crate::package::manifest::{
    dep_entry, dependency_added, dependency_removed, same_but_tables, table_of, DependencyType,
    PackageJson,
};
use crate::package::semver::{
    best_choice, catalog_name, effective_req, is_candidate, package_spec_name, package_spec_req,
    spec_is_git, spec_is_tarball, spec_matches, version_parse,
};
use crate::package::why::{dedup, same_key, ReasonView};
use crate::cli::{
    create_package_name, lemma_create_name_plain, lemma_find_after_clean, lemma_create_name_scope_only,
    lemma_create_name_scoped, lock_out_of_sync,
};
use crate::resolver::{
    built_lock, children, child_items, deps_view, install_path_choice, installed_version,
    items_view, nested_path, peer_items, platform_ok, visited_view, chain_weight, chains_within,
    dependency_count, levels, queue_weight, resolution_round, top_path, ResolvedNode, locked_version, pending_for, registry_outcome, Fetch, ItemView, Resolution,
    ResolveError, Resolver,
};
use crate::network::registry::{fetch_next, FetchAction, FetchEvent, RegistryFetch, RegistryPackageMetadata};
use crate::strmap::StrMap;
use crate::json::JsonValue;
use crate::network::registry::RegistryVersionMetadata;
use crate::strmap::{has_key, inserted, lookup, removed};
use crate::network::tarball::{
    entry_destination, join_parts, lemma_join_first, lemma_named_from, lemma_pieces_no_slash,
    lemma_split_join, named_parts, unsafe_entry,
};
use crate::text::{find_seq, has_prefix, split_all, trim};

verus! {

/// Adding a dependency and then removing it takes it out of every table and
/// leaves every other entry, and every other field, as it was before the add.
pub proof fn law_add_then_remove(
    p0: PackageJson,
    p1: PackageJson,
    p2: PackageJson,
    name: Seq<char>,
    req: Seq<char>,
    kind: DependencyType,
    was_listed: bool,
)
    requires
        dependency_added(p0, p1, name, req, kind),
        dependency_removed(p1, p2, name, was_listed),
    ensures
        was_listed,
        forall|t: DependencyType| dep_entry(table_of(p2, t), name) is None,
        forall|t: DependencyType, q: Seq<char>|
            q != name ==> dep_entry(table_of(p2, t), q) == dep_entry(table_of(p0, t), q),
        same_but_tables(p2, p0),
{
    assert(dep_entry(table_of(p1, kind), name) is Some);
    assert forall|t: DependencyType, q: Seq<char>| q != name implies dep_entry(table_of(p2, t), q)
        == dep_entry(table_of(p0, t), q) by {
        if t != kind {
            assert(table_of(p1, t) == table_of(p0, t));
        }
    }
}

/// Removing a name twice: the second removal finds nothing and changes no entry.
pub proof fn law_remove_twice(
    p0: PackageJson,
    p1: PackageJson,
    p2: PackageJson,
    name: Seq<char>,
    first: bool,
    second: bool,
)
    requires
        dependency_removed(p0, p1, name, first),
        dependency_removed(p1, p2, name, second),
    ensures
        !second,
        forall|t: DependencyType, q: Seq<char>| dep_entry(table_of(p2, t), q) == dep_entry(table_of(p1, t), q),
{
}

/// Reading a lockfile twice over changes nothing the second time: the result of
/// normalising is normalised.
pub proof fn law_normalize_idempotent(a: PackageLock, b: PackageLock, c: PackageLock)
    requires
        normalized(a, b),
        normalized(b, c),
    ensures
        b.lockfile_version >= 3,
        has_key(b.packages@, ""@),
        c.name == b.name,
        c.version == b.version,
        c.lockfile_version == b.lockfile_version,
        c.requires == b.requires,
        c.dependencies == b.dependencies,
        c.packages == b.packages,
{
}

/// Inserting a key and then removing it hands back the inserted value and
/// leaves the map as it was for every other key.
pub proof fn law_insert_then_remove<V>(
    a: Seq<(String, V)>,
    b: Seq<(String, V)>,
    c: Seq<(String, V)>,
    k: Seq<char>,
    v: V,
    r: Option<V>,
)
    requires
        inserted(a, b, k, v),
        removed(b, c, k, r),
    ensures
        r == Some(v),
        lookup(c, k) is None,
        forall|q: Seq<char>| q != k ==> lookup(c, q) == lookup(a, q),
{
}

/// The lower-case names of the severities read back as themselves, and the
/// ranks follow the order of the levels.
pub proof fn law_severity_names()
    ensures
        severity_named("info"@) == Severity::Info,
        severity_named("low"@) == Severity::Low,
        severity_named("moderate"@) == Severity::Moderate,
        severity_named("high"@) == Severity::High,
        severity_named("critical"@) == Severity::Critical,
        rank_of(Severity::Info) < rank_of(Severity::Low),
        rank_of(Severity::Low) < rank_of(Severity::Moderate),
        rank_of(Severity::Moderate) < rank_of(Severity::High),
        rank_of(Severity::High) < rank_of(Severity::Critical),
{
    reveal_strlit("info");
    reveal_strlit("low");
    reveal_strlit("moderate");
    reveal_strlit("medium");
    reveal_strlit("high");
    reveal_strlit("critical");
    assert(crate::network::audit::lower_text("info"@) =~= "info"@);
    assert(crate::network::audit::lower_text("low"@) =~= "low"@);
    assert(crate::network::audit::lower_text("moderate"@) =~= "moderate"@);
    assert(crate::network::audit::lower_text("high"@) =~= "high"@);
    assert(crate::network::audit::lower_text("critical"@) =~= "critical"@);
    assert("high"@[0] != "info"@[0]);
    assert("critical"@[0] != "moderate"@[0]);
    assert("critical"@[0] != "info"@[0]);
}

/// Every advisory is counted under exactly one severity: the counts add up to the total.
pub proof fn law_counts_sum(items: Seq<AdvisoryItem>)
    ensures
        count_of(items, Severity::Info) + count_of(items, Severity::Low) + count_of(
            items,
            Severity::Moderate,
        ) + count_of(items, Severity::High) + count_of(items, Severity::Critical) == items.len(),
    decreases items.len(),
{
    if items.len() > 0 {
        law_counts_sum(items.drop_last());
    }
}

/// Some kept reason has the key of `r`.
pub open spec fn has_kept(d: Seq<ReasonView>, r: ReasonView) -> bool {
    exists|j: int| 0 <= j < d.len() && same_key(d[j], r)
}

/// After dropping duplicates no two reasons share a location, requirer and
/// requirement, and every reason has one that does among those kept.
pub proof fn law_dedup_unique(rs: Seq<ReasonView>)
    ensures
        forall|i: int, j: int|
            0 <= i < j < dedup(rs).len() ==> !same_key(#[trigger] dedup(rs)[i], #[trigger] dedup(rs)[j]),
        forall|i: int| 0 <= i < rs.len() ==> has_kept(dedup(rs), #[trigger] rs[i]),
    decreases rs.len(),
{
    if rs.len() > 0 {
        let init = rs.drop_last();
        law_dedup_unique(init);
        let d = dedup(init);
        let last = rs.last();
        if exists|i: int| 0 <= i < rs.len() - 1 && same_key(#[trigger] rs[i], last) {
            assert(dedup(rs) == d);
            assert forall|i: int| 0 <= i < rs.len() implies has_kept(dedup(rs), #[trigger] rs[i]) by {
                if i < rs.len() - 1 {
                    assert(rs[i] == init[i]);
                    assert(has_kept(d, init[i]));
                } else {
                    let w = choose|w: int| 0 <= w < rs.len() - 1 && same_key(#[trigger] rs[w], last);
                    assert(rs[w] == init[w]);
                    assert(has_kept(d, init[w]));
                    let j = choose|j: int| 0 <= j < d.len() && same_key(d[j], init[w]);
                    assert(same_key(d[j], rs[i]));
                }
            }
        } else {
            assert(dedup(rs) == d.push(last));
            assert forall|i: int, j: int|
                0 <= i < j < dedup(rs).len() implies !same_key(#[trigger] dedup(rs)[i], #[trigger] dedup(rs)[j]) by {
                if j == d.len() {
                    if same_key(d[i], last) {
                        lemma_kept_from(init, i);
                        let w = choose|w: int| 0 <= w < init.len() && d[i] == init[w];
                        assert(rs[w] == init[w]);
                        assert(same_key(rs[w], last));
                    }
                }
            }
            assert forall|i: int| 0 <= i < rs.len() implies has_kept(dedup(rs), #[trigger] rs[i]) by {
                if i < rs.len() - 1 {
                    assert(rs[i] == init[i]);
                    assert(has_kept(d, init[i]));
                    let j = choose|j: int| 0 <= j < d.len() && same_key(d[j], init[i]);
                    assert(dedup(rs)[j] == d[j]);
                } else {
                    assert(dedup(rs)[d.len() as int] == last);
                    assert(same_key(dedup(rs)[d.len() as int], rs[i]));
                }
            }
        }
    }
}

/// Each reason kept is one of the reasons given.
proof fn lemma_kept_from(rs: Seq<ReasonView>, i: int)
    requires
        0 <= i < dedup(rs).len(),
    ensures
        exists|w: int| 0 <= w < rs.len() && dedup(rs)[i] == rs[w],
    decreases rs.len(),
{
    let init = rs.drop_last();
    let d = dedup(init);
    if i < d.len() {
        lemma_kept_from(init, i);
        let w = choose|w: int| 0 <= w < init.len() && d[i] == init[w];
        assert(rs[w] == init[w]);
    } else {
        assert(dedup(rs)[i] == rs.last());
    }
}

/// The version `select_best` picks satisfies the requirement.
pub proof fn law_selected_version_matches(
    raw: Seq<char>,
    sets: Option<Seq<Seq<Seq<char>>>>,
    versions: Seq<&str>,
    i: int,
)
    requires
        best_choice(raw, sets, versions, i),
    ensures
        0 <= i < versions.len(),
        version_parse(versions[i]@) is Some,
        spec_matches(raw, sets, versions[i]@),
{
    let s = crate::package::semver::stable_candidates(raw, sets, versions);
    let c = crate::package::semver::candidates(raw, sets, versions);
    if !trim(raw).contains('-') && (exists|j: int|
        #[trigger] crate::package::semver::is_stable_candidate(raw, sets, versions, j)) {
        assert(s(i));
    } else {
        assert(c(i));
    }
}

/// A requirement matches the version it names exactly, and `*`, `latest` and
/// the empty requirement match every version.
pub proof fn law_requirement_matches_itself(raw: Seq<char>, sets: Option<Seq<Seq<Seq<char>>>>, v: Seq<char>)
    ensures
        trim(raw) == v ==> spec_matches(raw, sets, v),
        trim(raw) == "*"@ || trim(raw) == "latest"@ || trim(raw).len() == 0 ==> spec_matches(raw, sets, v),
{
}

/// The resolver never installs a version of a package that already lies on the
/// path of packages that asked for it: such a step changes nothing.
pub proof fn law_no_cycle_install(
    r: Resolver,
    pre: Resolution,
    post: Resolution,
    item: ItemView,
    name: Seq<char>,
    version: Seq<char>,
    vm: RegistryVersionMetadata,
)
    requires
        installed_version(r, pre, post, item, name, version, vm),
        item.cycle_path.contains(name + "@"@ + version),
    ensures
        post.installed == pre.installed,
        post.visited == pre.visited,
        post.queue == pre.queue,
{
}

/// A file that extraction accepts lands inside the target directory: its
/// destination is neither absolute nor climbs out with a `..` component.
pub proof fn law_extraction_stays_inside(path: Seq<char>, dest: Seq<char>)
    requires
        !unsafe_entry(path),
        entry_destination(path) == Some(dest),
    ensures
        !unsafe_entry(dest),
{
    reveal_strlit("/");
    reveal_strlit("..");
    reveal_strlit("package");
    let p = split_all(path, "/"@);
    let named = named_parts(p);
    if dest != path {
        let m = named.drop_first();
        assert(dest == join_parts(m));
        assert(m.len() > 0);
        lemma_named_from(p);
        lemma_pieces_no_slash(path);
        assert forall|k: int| 0 <= k < m.len() implies !(#[trigger] m[k]).contains('/') by {
            assert(m[k] == named[k + 1]);
            let w = choose|w: int| 0 <= w < p.len() && p[w] == named[k + 1];
            assert(!p[w].contains('/'));
        }
        lemma_split_join(m);
        if m.contains(".."@) {
            let k = choose|k: int| 0 <= k < m.len() && m[k] == ".."@;
            assert(m[k] == named[k + 1]);
            assert(p.contains(named[k + 1]));
        }
        assert(m[0] == named[1]);
        lemma_join_first(m);
        if has_prefix(dest, "/"@) {
            assert(dest.subrange(0, 1)[0] == dest[0]);
            assert(m[0][0] == '/');
            assert(m[0].contains('/'));
        }
    }
}

/// A registry requirement for which the lockfile already holds a version that
/// still satisfies it gets that version installed, as long as the registry
/// still lists it: the lockfile is honoured, not re-resolved.
pub proof fn law_locked_version_kept(
    r: Resolver,
    manifests: Seq<PackageJson>,
    catalogs: Seq<(String, StrMap<String>)>,
    item: ItemView,
    pre: Resolution,
    post: Resolution,
    m: RegistryPackageMetadata,
    out: Result<Option<Fetch>, ResolveError>,
    v: Seq<char>,
    vm: RegistryVersionMetadata,
)
    requires
        pre.pending matches Some(p) && pending_for(r, manifests, catalogs, item, p),
        !pre.pending->0.spec.is_local_file,
        !pre.pending->0.spec.is_git,
        !pre.pending->0.spec.is_tarball_url,
        locked_version(r.existing_lock, item.parent_path, item.dep_key, pre.pending->0.spec.version_req@)
            == Some(v),
        lookup(m.versions@, v) == Some(vm),
        registry_outcome(r, pre, post, Ok(m), out),
    ensures
        out == Ok::<Option<Fetch>, ResolveError>(None),
        installed_version(r, pre, post, pre.pending->0.item@, pre.pending->0.spec.registry_name@, v, vm),
{
    let p = pre.pending->0;
    assert(p.chosen matches Some(c) && c@ == v);
}

/// The lockfile an install writes for a manifest is in sync with it, so a
/// clean install of the same manifest accepts it (no node sits at the root path).
pub proof fn law_built_lock_in_sync(manifest: PackageJson, resolved: StrMap<ResolvedNode>, lock: PackageLock)
    requires
        built_lock(manifest, resolved, lock),
        !has_key(resolved@, ""@),
    ensures
        !lock_out_of_sync(manifest, lock),
{
    reveal_strlit("");
    assert(""@ =~= Seq::<char>::empty());
}

/// Hoisting: a requirement whose version already sits at the top level reuses
/// it and installs nothing; one below a package that needs another version is
/// nested under that package and leaves the top-level one in place.
pub proof fn law_hoist_or_nest(
    r: Resolver,
    pre: Resolution,
    post: Resolution,
    item: ItemView,
    name: Seq<char>,
    version: Seq<char>,
    vm: RegistryVersionMetadata,
)
    requires
        installed_version(r, pre, post, item, name, version, vm),
        lookup(pre.installed@, top_path(item.dep_key)) is Some,
    ensures
        lookup(pre.installed@, top_path(item.dep_key))->0.version@ == version ==> post.installed
            == pre.installed,
        lookup(pre.installed@, top_path(item.dep_key))->0.version@ != version && item.parent_path.len()
            > 0 ==> lookup(post.installed@, top_path(item.dep_key)) == lookup(
            pre.installed@,
            top_path(item.dep_key),
        ),
{
    reveal_strlit("node_modules/");
    reveal_strlit("/node_modules/");
    let top = top_path(item.dep_key);
    let nested = nested_path(item.parent_path, item.dep_key);
    if item.parent_path.len() > 0 {
        assert(nested.len() > top.len());
        assert(nested != top);
    }
}

/// A blank template names the `create` package, and an initializer name is a
/// fixed point: resolving the name that a template resolves to gives it back.
pub proof fn law_create_name_fixed_point(t: Seq<char>)
    ensures
        trim(t).len() == 0 ==> create_package_name(t) == "create"@,
        trim(t).len() > 0 ==> create_package_name(create_package_name(t)) == create_package_name(t),
{
    if trim(t).len() > 0 {
        if has_prefix(trim(t), "@"@) {
            if find_seq(trim(t).subrange(1, trim(t).len() as int), seq!['/']) is Some {
                lemma_create_name_scoped(t);
            } else {
                lemma_create_name_scope_only(t);
            }
        } else {
            lemma_create_name_plain(t);
        }
    }
}

/// A `catalog:` requirement whose catalog holds an entry for the dependency is
/// read as that entry; when the entry is already trimmed, the dependency is
/// described exactly as if the entry had been written in its place.
pub proof fn law_catalog_entry_as_direct(
    dep: Seq<char>,
    req: Seq<char>,
    cats: Seq<(String, StrMap<String>)>,
    name: Seq<char>,
    table: StrMap<String>,
    entry: String,
)
    requires
        catalog_name(trim(req)) == Some(name),
        lookup(cats, name) == Some(table),
        lookup(table@, dep) == Some(entry),
    ensures
        effective_req(dep, req, Some(cats)) == entry@,
        trim(entry@) == entry@ ==> effective_req(dep, req, Some(cats)) == effective_req(
            dep,
            entry@,
            None,
        ),
{
}

/// A requirement that names no catalog entry for the dependency (no `catalog:`
/// prefix, an unknown catalog, or a catalog without the dependency) is read as
/// written, trimmed, just as when no catalogs are given.
pub proof fn law_catalog_miss_as_direct(
    dep: Seq<char>,
    req: Seq<char>,
    cats: Seq<(String, StrMap<String>)>,
)
    requires
        !(catalog_name(trim(req)) matches Some(n) && (lookup(cats, n) matches Some(m) && lookup(
            m@,
            dep,
        ) is Some)),
    ensures
        effective_req(dep, req, Some(cats)) == trim(req),
        effective_req(dep, req, Some(cats)) == effective_req(dep, req, None),
{
}

/// A specifier written as `name@requirement` reads back as that name and that
/// requirement, for a plain name (no `@`) and for a scoped one (`@` followed by
/// a text without `@`), as long as the text is trimmed and is neither a
/// `file:` path, a git specifier nor a tarball URL.
pub proof fn law_name_at_version_round_trip(n: Seq<char>, v: Seq<char>)
    requires
        n.len() > 0,
        !n.contains('@') || (n[0] == '@' && !n.drop_first().contains('@')),
        v.len() > 0,
        trim(n + "@"@ + v) == n + "@"@ + v,
        !has_prefix(n + "@"@ + v, "file:"@),
        !spec_is_git(n + "@"@ + v),
        !spec_is_tarball(n + "@"@ + v),
    ensures
        package_spec_name(n + "@"@ + v) == n,
        package_spec_req(n + "@"@ + v) == v,
{
    reveal_strlit("@");
    let s = n + "@"@ + v;
    assert(s =~= n + seq!['@'] + v);
    if !n.contains('@') {
        assert(s.subrange(0, 1)[0] == n[0]);
        assert(!has_prefix(s, "@"@));
        lemma_find_after_clean(n, '@', v);
        assert(s.subrange(0, n.len() as int) =~= n);
        assert(s.subrange(n.len() as int + 1, s.len() as int) =~= v);
    } else {
        let m = n.drop_first();
        assert(s.subrange(0, 1) =~= "@"@);
        let rest = s.subrange(1, s.len() as int);
        assert(rest =~= m + seq!['@'] + v);
        lemma_find_after_clean(m, '@', v);
        assert(rest.subrange(0, m.len() as int) =~= m);
        assert(rest.subrange(m.len() as int + 1, rest.len() as int) =~= v);
        assert("@"@ + m =~= n);
    }
}

/// Every item that `peer_items` queues carries the chain it was given.
proof fn lemma_peer_items_chain(
    entries: Seq<(String, String)>,
    pm: Option<JsonValue>,
    is_dev: bool,
    cycle: Seq<Seq<char>>,
    installed: Seq<(String, ResolvedNode)>,
)
    ensures
        forall|k: int|
            0 <= k < peer_items(entries, pm, is_dev, cycle, installed).len() ==> (#[trigger] peer_items(
                entries,
                pm,
                is_dev,
                cycle,
                installed,
            )[k]).cycle_path == cycle,
    decreases entries.len(),
{
    if entries.len() > 0 {
        lemma_peer_items_chain(entries.drop_last(), pm, is_dev, cycle, installed);
        let rest = peer_items(entries.drop_last(), pm, is_dev, cycle, installed);
        let all = peer_items(entries, pm, is_dev, cycle, installed);
        assert forall|k: int| 0 <= k < all.len() implies (#[trigger] all[k]).cycle_path == cycle by {
            if k < rest.len() {
                assert(all[k] == rest[k]);
            }
        }
    }
}

/// One round of resolution (`next_fetch` takes the first item, then the step
/// that settles it) either leaves the visited (path, version) pairs as they
/// were and the queue one item shorter, or adds to the visited pairs one that
/// was not among them. Only the second kind queues new items.
pub proof fn law_round_progress(
    r: Resolver,
    pre: Resolution,
    mid: Resolution,
    post: Resolution,
    item: ItemView,
    name: Seq<char>,
    version: Seq<char>,
    vm: RegistryVersionMetadata,
)
    requires
        pre.queue@.len() > 0,
        items_view(mid.queue@) == items_view(pre.queue@).drop_first(),
        mid.visited == pre.visited,
        installed_version(r, mid, post, item, name, version, vm) || (post.queue == mid.queue
            && post.visited == mid.visited),
    ensures
        (visited_view(post.visited@) == visited_view(pre.visited@) && post.queue@.len() + 1
            == pre.queue@.len()) || (exists|
            pair: (Seq<char>, Seq<char>),
        |
            !visited_view(pre.visited@).contains(pair) && visited_view(post.visited@)
                == visited_view(pre.visited@).push(pair)),
{
    assert(items_view(mid.queue@).len() == mid.queue@.len());
    assert(items_view(pre.queue@).len() == pre.queue@.len());
    assert(items_view(post.queue@).len() == post.queue@.len());
    if installed_version(r, mid, post, item, name, version, vm) {
        let ck = name + "@"@ + version;
        if !(!platform_ok(r, vm) && item.is_optional) {
            if install_path_choice(mid.installed@, item, version) is Some {
                let path = install_path_choice(mid.installed@, item, version)->0;
                if !item.cycle_path.contains(ck) && !visited_view(mid.visited@).contains(
                    (path, version),
                ) {
                    assert(!visited_view(pre.visited@).contains((path, version)));
                    assert(visited_view(post.visited@) == visited_view(pre.visited@).push(
                        (path, version),
                    ));
                }
            }
        }
    }
}

/// The items that installing a version queues carry the chain of the item
/// that asked for it with that `name@version` added, which was not on it: a
/// chain without repeats stays without repeats, so no chain is longer than the
/// number of distinct versions the registry serves.
pub proof fn law_queued_chain_grows(
    r: Resolver,
    pre: Resolution,
    post: Resolution,
    item: ItemView,
    name: Seq<char>,
    version: Seq<char>,
    vm: RegistryVersionMetadata,
)
    requires
        installed_version(r, pre, post, item, name, version, vm),
        item.cycle_path.no_duplicates(),
    ensures
        forall|k: int|
            pre.queue@.len() <= k < post.queue@.len() ==> {
                &&& (#[trigger] items_view(post.queue@)[k]).cycle_path == item.cycle_path.push(
                    name + "@"@ + version,
                )
                &&& !item.cycle_path.contains(name + "@"@ + version)
                &&& items_view(post.queue@)[k].cycle_path.no_duplicates()
            },
{
    let ck = name + "@"@ + version;
    assert(items_view(pre.queue@).len() == pre.queue@.len());
    assert(items_view(post.queue@).len() == post.queue@.len());
    if post.queue@.len() > pre.queue@.len() {
        let path = install_path_choice(pre.installed@, item, version)->0;
        let cyc = item.cycle_path.push(ck);
        let a = child_items(deps_view(vm.dependencies), item.is_dev, item.is_optional, path, cyc);
        let b = child_items(deps_view(vm.optional_dependencies), item.is_dev, true, path, cyc);
        let c = peer_items(
            deps_view(vm.peer_dependencies),
            vm.peer_dependencies_meta,
            item.is_dev,
            cyc,
            post.installed@,
        );
        lemma_peer_items_chain(
            deps_view(vm.peer_dependencies),
            vm.peer_dependencies_meta,
            item.is_dev,
            cyc,
            post.installed@,
        );
        assert(children(item, vm, path, cyc, post.installed@) == a + b + c);
        assert forall|i: int, j: int| 0 <= i < j < cyc.len() implies cyc[i] != cyc[j] by {
            if j == cyc.len() - 1 {
                assert(item.cycle_path[i] == cyc[i]);
            }
        }
        assert forall|k: int| pre.queue@.len() <= k < post.queue@.len() implies (
        #[trigger] items_view(post.queue@)[k]).cycle_path == cyc by {
            let m = k - pre.queue@.len();
            assert(items_view(post.queue@)[k] == (a + b + c)[m]);
            if m < a.len() {
                assert((a + b + c)[m] == a[m]);
            } else if m < a.len() + b.len() {
                assert((a + b + c)[m] == b[m - a.len()]);
            } else {
                assert((a + b + c)[m] == c[m - a.len() - b.len()]);
            }
        }
    }
}

proof fn lemma_levels_positive(b: nat, e: nat)
    ensures
        levels(b, e) >= 1,
    decreases e,
{
    if e > 0 {
        lemma_levels_positive(b, (e - 1) as nat);
        let x = levels(b, (e - 1) as nat);
        assert((b + 1) * x >= 1) by (nonlinear_arith)
            requires
                x >= 1,
        ;
    }
}

proof fn lemma_queue_weight_append(a: Seq<ItemView>, c: Seq<ItemView>, n: nat, b: nat)
    ensures
        queue_weight(a + c, n, b) == queue_weight(a, n, b) + queue_weight(c, n, b),
    decreases a.len(),
{
    if a.len() == 0 {
        assert(a + c =~= c);
    } else {
        assert((a + c)[0] == a[0]);
        assert((a + c).drop_first() =~= a.drop_first() + c);
        lemma_queue_weight_append(a.drop_first(), c, n, b);
    }
}

proof fn lemma_queue_weight_uniform(s: Seq<ItemView>, chain: Seq<Seq<char>>, n: nat, b: nat)
    requires
        forall|i: int| 0 <= i < s.len() ==> (#[trigger] s[i]).cycle_path == chain,
    ensures
        queue_weight(s, n, b) == s.len() * chain_weight(chain, n, b),
    decreases s.len(),
{
    if s.len() > 0 {
        let rest = s.drop_first();
        assert forall|i: int| 0 <= i < rest.len() implies (#[trigger] rest[i]).cycle_path == chain by {
            assert(rest[i] == s[i + 1]);
        }
        lemma_queue_weight_uniform(rest, chain, n, b);
        let w = chain_weight(chain, n, b) as int;
        let k = s.len() as int;
        assert(k * w == w + (k - 1) * w) by (nonlinear_arith);
    }
}

proof fn lemma_peer_items_len(
    entries: Seq<(String, String)>,
    pm: Option<JsonValue>,
    is_dev: bool,
    cycle: Seq<Seq<char>>,
    installed: Seq<(String, ResolvedNode)>,
)
    ensures
        peer_items(entries, pm, is_dev, cycle, installed).len() <= entries.len(),
    decreases entries.len(),
{
    if entries.len() > 0 {
        lemma_peer_items_len(entries.drop_last(), pm, is_dev, cycle, installed);
    }
}

/// A chain without repeats made of versions the registry serves is no longer
/// than the number of versions it serves.
proof fn lemma_chain_len(chain: Seq<Seq<char>>, served: Set<Seq<char>>)
    requires
        served.finite(),
        chain.no_duplicates(),
        forall|j: int| 0 <= j < chain.len() ==> served.contains(#[trigger] chain[j]),
    ensures
        chain.len() <= served.len(),
{
    chain.unique_seq_to_set();
    assert(chain.to_set().subset_of(served));
    vstd::set_lib::lemma_len_subset(chain.to_set(), served);
}

/// Resolution makes progress on a well-founded measure: across one round, the
/// queue's weight (`queue_weight`, over the number of versions the registry
/// serves and the most requirements one of them lists) falls, and queued
/// chains stay free of repeats and within what the registry serves.
pub proof fn law_round_measure(
    r: Resolver,
    served: Set<Seq<char>>,
    b: nat,
    pre: Resolution,
    post: Resolution,
)
    requires
        served.finite(),
        chains_within(items_view(pre.queue@), served),
        resolution_round(r, served, b, pre, post),
    ensures
        chains_within(items_view(post.queue@), served),
        queue_weight(items_view(post.queue@), served.len(), b) < queue_weight(
            items_view(pre.queue@),
            served.len(),
            b,
        ),
{
    let n = served.len();
    let pq = items_view(pre.queue@);
    let c0 = pq[0].cycle_path;
    let rest = pq.drop_first();
    assert(pq.len() == pre.queue@.len());
    assert(queue_weight(pq, n, b) == chain_weight(c0, n, b) + queue_weight(rest, n, b));
    lemma_levels_positive(b, (n - c0.len()) as nat);
    assert(chain_weight(c0, n, b) >= 1);
    assert forall|i: int| 0 <= i < rest.len() implies #[trigger] rest[i] == pq[i + 1] by {}
    if items_view(post.queue@) == rest {
    } else {
        let (mid, item, name, version, vm) = choose|
            mid: Resolution,
            item: ItemView,
            name: Seq<char>,
            version: Seq<char>,
            vm: RegistryVersionMetadata,
        |
            #![trigger installed_version(r, mid, post, item, name, version, vm)]
            {
                &&& items_view(mid.queue@) == items_view(pre.queue@).drop_first()
                &&& item.cycle_path == items_view(pre.queue@)[0].cycle_path
                &&& served.contains(name + "@"@ + version)
                &&& dependency_count(vm) <= b
                &&& installed_version(r, mid, post, item, name, version, vm)
            };
        let ck = name + "@"@ + version;
        let post_q = items_view(post.queue@);
        let grows = !(!platform_ok(r, vm) && item.is_optional) && install_path_choice(
            mid.installed@,
            item,
            version,
        ) is Some && !item.cycle_path.contains(ck) && !visited_view(mid.visited@).contains(
            (install_path_choice(mid.installed@, item, version)->0, version),
        );
        if !grows {
            assert(post_q =~= rest);
        } else {
            let path = install_path_choice(mid.installed@, item, version)->0;
            let cyc = item.cycle_path.push(ck);
            let ch = children(item, vm, path, cyc, post.installed@);
            assert(post_q == rest + ch);
            let a = child_items(deps_view(vm.dependencies), item.is_dev, item.is_optional, path, cyc);
            let bb = child_items(deps_view(vm.optional_dependencies), item.is_dev, true, path, cyc);
            let c = peer_items(
                deps_view(vm.peer_dependencies),
                vm.peer_dependencies_meta,
                item.is_dev,
                cyc,
                post.installed@,
            );
            lemma_peer_items_chain(
                deps_view(vm.peer_dependencies),
                vm.peer_dependencies_meta,
                item.is_dev,
                cyc,
                post.installed@,
            );
            lemma_peer_items_len(
                deps_view(vm.peer_dependencies),
                vm.peer_dependencies_meta,
                item.is_dev,
                cyc,
                post.installed@,
            );
            assert(ch == a + bb + c);
            assert(ch.len() <= b);
            assert forall|i: int| 0 <= i < ch.len() implies (#[trigger] ch[i]).cycle_path == cyc by {
                if i < a.len() {
                    assert((a + bb + c)[i] == a[i]);
                } else if i < a.len() + bb.len() {
                    assert((a + bb + c)[i] == bb[i - a.len()]);
                } else {
                    assert((a + bb + c)[i] == c[i - a.len() - bb.len()]);
                }
            }
            assert forall|i: int, j: int| 0 <= i < j < cyc.len() implies cyc[i] != cyc[j] by {
                if j == cyc.len() - 1 {
                    assert(item.cycle_path[i] == cyc[i]);
                }
            }
            assert(pq[0].cycle_path.no_duplicates());
            assert forall|j: int| 0 <= j < cyc.len() implies served.contains(#[trigger] cyc[j]) by {
                if j < c0.len() {
                    assert(cyc[j] == pq[0].cycle_path[j]);
                }
            }
            lemma_chain_len(cyc, served);
            let e = (n - cyc.len()) as nat;
            assert(chain_weight(c0, n, b) == levels(b, e + 1));
            assert(chain_weight(cyc, n, b) == levels(b, e));
            let l = levels(b, e) as int;
            lemma_levels_positive(b, e);
            lemma_queue_weight_uniform(ch, cyc, n, b);
            lemma_queue_weight_append(rest, ch, n, b);
            let k = ch.len() as int;
            assert(k * l < (b + 1) * l) by (nonlinear_arith)
                requires
                    0 <= k <= b,
                    l >= 1,
            ;
            assert forall|i: int| 0 <= i < post_q.len() implies (#[trigger] post_q[i]).cycle_path.no_duplicates()
                by {
                if i >= rest.len() {
                    assert(post_q[i] == ch[i - rest.len()]);
                } else {
                    assert(post_q[i] == rest[i]);
                }
            }
            assert forall|i: int, j: int|
                0 <= i < post_q.len() && 0 <= j < post_q[i].cycle_path.len() implies served.contains(
                #[trigger] post_q[i].cycle_path[j],
            ) by {
                if i >= rest.len() {
                    assert(post_q[i] == ch[i - rest.len()]);
                } else {
                    assert(post_q[i] == pq[i + 1]);
                }
            }
        }
    }
}

/// Resolution ends. Over any run of rounds (each `next_fetch` followed by the
/// step that settles its item), from a queue whose chains are within what the
/// registry serves, the number of
/// rounds is at most the starting queue's weight: a finite number fixed by the
/// queue, the number of versions the registry serves and the most
/// requirements one of them lists, however the dependencies form cycles.
/// (The root's requirements start from the chain `root`, so `served` holds
/// `root` beside every `name@version` the registry serves.)
pub proof fn law_rounds_bounded(
    r: Resolver,
    served: Set<Seq<char>>,
    b: nat,
    states: Seq<Resolution>,
)
    requires
        served.finite(),
        states.len() > 0,
        chains_within(items_view(states[0].queue@), served),
        forall|i: int|
            0 <= i < states.len() - 1 ==> resolution_round(r, served, b, #[trigger] states[i], states[i + 1]),
    ensures
        states.len() - 1 <= queue_weight(items_view(states[0].queue@), served.len(), b),
    decreases states.len(),
{
    if states.len() > 1 {
        assert(resolution_round(r, served, b, states[0], states[1]));
        law_round_measure(r, served, b, states[0], states[1]);
        let tail = states.drop_first();
        assert forall|i: int| 0 <= i < tail.len() - 1 implies resolution_round(
            r,
            served,
            b,
            #[trigger] tail[i],
            tail[i + 1],
        ) by {
            assert(tail[i] == states[i + 1]);
            assert(tail[i + 1] == states[i + 2]);
        }
        law_rounds_bounded(r, served, b, tail);
    }
}

/// In offline mode a fetch never sends a request: from its start and from
/// what the caches gave, it either uses a cached entry, looks in the next
/// cache, or reports the miss.
pub proof fn law_offline_uses_cache_only(st: RegistryFetch, ev: FetchEvent)
    requires
        st.offline,
        ev is Begin || ev is MemoryLooked || ev is DiskLooked,
    ensures
        !(fetch_next(st, ev).1 is Request),
        fetch_next(st, ev).1 is UseCached || fetch_next(st, ev).1 is LookInMemory || fetch_next(
            st,
            ev,
        ).1 is LookOnDisk || fetch_next(st, ev).1 == FetchAction::OfflineMiss,
{
}

/// Every request a fetch sends is one of the first `retry_attempts()`, each a
/// later attempt than the one before it.
pub proof fn law_requests_bounded(st: RegistryFetch, ev: FetchEvent)
    requires
        st.attempt < 3,
    ensures
        fetch_next(st, ev).1 matches FetchAction::Request { attempt, .. } ==> attempt < 3 && (
        attempt == 0 || attempt == st.attempt + 1),
{
}

} // verus!
