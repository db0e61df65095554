//! Why a package is installed: every requirement in the manifest and the
//! lockfile that names it.
use vstd::prelude::*;

use crate::package::lockfile::{LockPackage, PackageLock};
use crate::package::manifest::PackageJson;
use crate::strmap::{lookup, StrMap};
use crate::text::{
    chars_eq, chars_of, concat, split_all, split_last, split_last_piece, split_pieces, string_of,
    strip_prefix, has_prefix,
};

verus! {

pub struct WhyReason {
    pub location: String,
    pub version: String,
    pub required_by: String,
    pub requirement: String,
    pub dep_type: String,
    pub chain: Vec<String>,
}

pub struct WhyResult {
    pub package: String,
    pub reasons: Vec<WhyReason>,
}

/// A reason as plain values.
pub struct ReasonView {
    pub location: Seq<char>,
    pub version: Seq<char>,
    pub required_by: Seq<char>,
    pub requirement: Seq<char>,
    pub dep_type: Seq<char>,
    pub chain: Seq<Seq<char>>,
}

impl View for WhyReason {
    type V = ReasonView;

    open spec fn view(&self) -> ReasonView {
        ReasonView {
            location: self.location@,
            version: self.version@,
            required_by: self.required_by@,
            requirement: self.requirement@,
            dep_type: self.dep_type@,
            chain: self.chain@.map_values(|s: String| s@),
        }
    }
}

pub open spec fn reasons_view(rs: Seq<WhyReason>) -> Seq<ReasonView> {
    rs.map_values(|r: WhyReason| r@)
}

pub open spec fn text_or(o: Option<String>, d: Seq<char>) -> Seq<char> {
    match o {
        Some(s) => s@,
        None => d,
    }
}

/// The version recorded in the lockfile entry at `path`.
pub open spec fn entry_version(lock: PackageLock, path: Seq<char>) -> Option<Option<String>> {
    match lookup(lock.packages@, path) {
        Some(e) => Some(e.version),
        None => None,
    }
}

/// The reason a root requirement `req` of kind `dep_type` gives.
pub open spec fn root_reason(
    lock: PackageLock,
    root_name: Seq<char>,
    root_version: Seq<char>,
    target: Seq<char>,
    req: Seq<char>,
    dep_type: Seq<char>,
) -> ReasonView {
    let top = "node_modules/"@ + target;
    ReasonView {
        location: top,
        version: match entry_version(lock, top) {
            Some(Some(v)) => v@,
            _ => req,
        },
        required_by: root_name + "@"@ + root_version,
        requirement: req,
        dep_type,
        chain: seq![root_name + " ("@ + dep_type + ")"@, target],
    }
}

/// The reasons one root table gives (one at most, its keys being distinct).
pub open spec fn root_table_reasons(
    table: Option<StrMap<String>>,
    lock: PackageLock,
    root_name: Seq<char>,
    root_version: Seq<char>,
    target: Seq<char>,
    dep_type: Seq<char>,
) -> Seq<ReasonView> {
    match table {
        Some(t) => match lookup(t@, target) {
            Some(req) => seq![root_reason(lock, root_name, root_version, target, req@, dep_type)],
            None => Seq::empty(),
        },
        None => Seq::empty(),
    }
}

/// The name a lockfile entry is shown with: its own, else the last package
/// folder of its path.
pub open spec fn entry_name(path: Seq<char>, e: LockPackage) -> Seq<char> {
    match e.name {
        Some(n) => n@,
        None => if has_prefix(path, "node_modules/"@) {
            split_last(path.subrange(13, path.len() as int), "/node_modules/"@)
        } else {
            path
        },
    }
}

/// The package folders on the way to an install path.
pub open spec fn path_segments(path: Seq<char>) -> Seq<Seq<char>> {
    let rest = if has_prefix(path, "node_modules/"@) {
        path.subrange(13, path.len() as int)
    } else {
        path
    };
    split_all(rest, "/node_modules/"@)
}

/// The reason a lockfile entry's table gives when it requires the target.
pub open spec fn entry_table_reasons(
    lock: PackageLock,
    root_name: Seq<char>,
    path: Seq<char>,
    e: LockPackage,
    table: Option<StrMap<String>>,
    target: Seq<char>,
    dep_type: Seq<char>,
) -> Seq<ReasonView> {
    match table {
        Some(t) => match lookup(t@, target) {
            Some(req) => {
                let nested = path + "/node_modules/"@ + target;
                let top = "node_modules/"@ + target;
                let (location, installed) = match entry_version(lock, nested) {
                    Some(v) => (nested, v),
                    None => match entry_version(lock, top) {
                        Some(v) => (top, v),
                        None => (nested, None),
                    },
                };
                seq![
                    ReasonView {
                        location,
                        version: text_or(installed, req@),
                        required_by: entry_name(path, e) + "@"@ + text_or(e.version, Seq::empty()),
                        requirement: req@,
                        dep_type,
                        chain: seq![root_name] + path_segments(path) + seq![target],
                    },
                ]
            },
            None => Seq::empty(),
        },
        None => Seq::empty(),
    }
}

/// The reasons the lockfile entries give, entry by entry in path order.
pub open spec fn lock_reasons(
    lock: PackageLock,
    entries: Seq<(String, LockPackage)>,
    root_name: Seq<char>,
    target: Seq<char>,
) -> Seq<ReasonView>
    decreases entries.len(),
{
    if entries.len() == 0 {
        Seq::empty()
    } else {
        let rest = lock_reasons(lock, entries.drop_last(), root_name, target);
        let (p, e) = entries.last();
        if p@.len() == 0 {
            rest
        } else {
            rest + entry_table_reasons(lock, root_name, p@, e, e.dependencies, target, "dependencies"@)
                + entry_table_reasons(
                lock,
                root_name,
                p@,
                e,
                e.optional_dependencies,
                target,
                "optionalDependencies"@,
            ) + entry_table_reasons(
                lock,
                root_name,
                p@,
                e,
                e.peer_dependencies,
                target,
                "peerDependencies"@,
            )
        }
    }
}

pub open spec fn same_key(a: ReasonView, b: ReasonView) -> bool {
    a.location == b.location && a.required_by == b.required_by && a.requirement == b.requirement
}

/// The reasons with each (location, required by, requirement) kept once, first first.
pub open spec fn dedup(rs: Seq<ReasonView>) -> Seq<ReasonView>
    decreases rs.len(),
{
    if rs.len() == 0 {
        Seq::empty()
    } else {
        let d = dedup(rs.drop_last());
        if exists|i: int| 0 <= i < rs.len() - 1 && same_key(#[trigger] rs[i], rs.last()) {
            d
        } else {
            d.push(rs.last())
        }
    }
}

/// Every reason, before duplicates are dropped: the root's dependencies,
/// dev, optional and peer dependencies, then the lockfile's entries.
pub open spec fn all_reasons(m: PackageJson, lock: PackageLock, target: Seq<char>) -> Seq<ReasonView> {
    let root_name = text_or(m.name, "root"@);
    let root_version = text_or(m.version, Seq::empty());
    root_table_reasons(m.dependencies, lock, root_name, root_version, target, "dependencies"@)
        + root_table_reasons(m.dev_dependencies, lock, root_name, root_version, target, "devDependencies"@)
        + root_table_reasons(m.optional_dependencies, lock, root_name, root_version, target, "optionalDependencies"@)
        + root_table_reasons(m.peer_dependencies, lock, root_name, root_version, target, "peerDependencies"@)
        + lock_reasons(lock, lock.packages@, root_name, target)
}

fn text(s: &str) -> (r: String)
    ensures
        r@ == s@,
{
    string_of(chars_of(s))
}

fn join(a: &str, b: &str) -> (r: String)
    ensures
        r@ == a@ + b@,
{
    string_of(concat(&chars_of(a), &chars_of(b)))
}

fn entry_version_of(lock: &PackageLock, path: &Vec<char>) -> (r: Option<Option<String>>)
    ensures
        r == entry_version(*lock, path@),
{
    match lock.packages.get(path) {
        Some(e) => Some(crate::package::lockfile::copy_opt_string(&e.version)),
        None => None,
    }
}

fn or_text(o: Option<String>, d: &str) -> (r: String)
    ensures
        r@ == text_or(o, d@),
{
    match o {
        Some(s) => s,
        None => text(d),
    }
}

fn push_root_reason(
    reasons: &mut Vec<WhyReason>,
    table: &Option<StrMap<String>>,
    lock: &PackageLock,
    root_name: &String,
    root_version: &String,
    target: &str,
    dep_type: &str,
)
    ensures
        reasons_view(final(reasons)@) == reasons_view(old(reasons)@) + root_table_reasons(
            *table,
            *lock,
            root_name@,
            root_version@,
            target@,
            dep_type@,
        ),
{
    let ghost before = reasons_view(reasons@);
    let req = match table {
        Some(t) => match t.get(&chars_of(target)) {
            Some(r) => r,
            None => {
                assert(before + Seq::<ReasonView>::empty() =~= before);
                return;
            },
        },
        None => {
            assert(before + Seq::<ReasonView>::empty() =~= before);
            return;
        },
    };
    proof {
        reveal_strlit("node_modules/");
        reveal_strlit("@");
        reveal_strlit(" (");
        reveal_strlit(")");
    }
    let top = join("node_modules/", target);
    let version = match entry_version_of(lock, &chars_of(top.as_str())) {
        Some(Some(v)) => v,
        _ => req.clone(),
    };
    let required_by = join(join(root_name.as_str(), "@").as_str(), root_version.as_str());
    let first = join(join(join(root_name.as_str(), " (").as_str(), dep_type).as_str(), ")");
    let mut chain: Vec<String> = Vec::new();
    chain.push(first);
    chain.push(text(target));
    let r = WhyReason {
        location: top,
        version,
        required_by,
        requirement: req.clone(),
        dep_type: text(dep_type),
        chain,
    };
    assert(r@.chain =~= seq![root_name@ + " ("@ + dep_type@ + ")"@, target@]);
    assert(r@ == root_reason(*lock, root_name@, root_version@, target@, req@, dep_type@));
    reasons.push(r);
    assert(reasons_view(reasons@) =~= before.push(r@));
}

pub fn entry_name_text(path: &String, e: &LockPackage) -> (r: String)
    ensures
        r@ == entry_name(path@, *e),
{
    match &e.name {
        Some(n) => n.clone(),
        None => {
            proof {
                reveal_strlit("node_modules/");
                reveal_strlit("/node_modules/");
            }
            let p = chars_of(path.as_str());
            match strip_prefix(&p, &chars_of("node_modules/")) {
                Some(rest) => string_of(split_last_piece(&rest, &chars_of("/node_modules/"))),
                None => string_of(p),
            }
        },
    }
}

fn segments_of(path: &String) -> (r: Vec<String>)
    ensures
        r@.map_values(|s: String| s@) == path_segments(path@),
{
    proof {
        reveal_strlit("node_modules/");
        reveal_strlit("/node_modules/");
    }
    let p = chars_of(path.as_str());
    let rest = match strip_prefix(&p, &chars_of("node_modules/")) {
        Some(r) => r,
        None => p,
    };
    let pieces = split_pieces(&rest, &chars_of("/node_modules/"));
    let mut out: Vec<String> = Vec::new();
    let mut i: usize = 0;
    while i < pieces.len()
        invariant
            i <= pieces@.len(),
            pieces@.map_values(|v: Vec<char>| v@) == path_segments(path@),
            out@.map_values(|s: String| s@) == pieces@.map_values(|v: Vec<char>| v@).subrange(0, i as int),
        decreases pieces@.len() - i,
    {
        let piece = string_of(crate::text::slice_of(&pieces[i], 0, pieces[i].len()));
        assert(piece@ =~= pieces@[i as int]@);
        let ghost before = out@.map_values(|s: String| s@);
        let ghost pv = pieces@.map_values(|v: Vec<char>| v@);
        out.push(piece);
        assert(out@.map_values(|s: String| s@) =~= before.push(piece@));
        assert(pv.subrange(0, i + 1) =~= pv.subrange(0, i as int).push(pv[i as int]));
        i = i + 1;
    }
    assert(pieces@.map_values(|v: Vec<char>| v@).subrange(0, pieces@.len() as int) =~= pieces@.map_values(|v: Vec<char>| v@));
    out
}

fn push_entry_reason(
    reasons: &mut Vec<WhyReason>,
    lock: &PackageLock,
    root_name: &String,
    path: &String,
    e: &LockPackage,
    table: &Option<StrMap<String>>,
    target: &str,
    dep_type: &str,
)
    ensures
        reasons_view(final(reasons)@) == reasons_view(old(reasons)@) + entry_table_reasons(
            *lock,
            root_name@,
            path@,
            *e,
            *table,
            target@,
            dep_type@,
        ),
{
    let ghost before = reasons_view(reasons@);
    let req = match table {
        Some(t) => match t.get(&chars_of(target)) {
            Some(r) => r,
            None => {
                assert(before + Seq::<ReasonView>::empty() =~= before);
                return;
            },
        },
        None => {
            assert(before + Seq::<ReasonView>::empty() =~= before);
            return;
        },
    };
    proof {
        reveal_strlit("node_modules/");
        reveal_strlit("/node_modules/");
        reveal_strlit("@");
        reveal_strlit("");
    }
    let nested = join(join(path.as_str(), "/node_modules/").as_str(), target);
    let top = join("node_modules/", target);
    let (location, installed) = match entry_version_of(lock, &chars_of(nested.as_str())) {
        Some(v) => (nested, v),
        None => match entry_version_of(lock, &chars_of(top.as_str())) {
            Some(v) => (top, v),
            None => (nested, None),
        },
    };
    let version = match installed {
        Some(v) => v,
        None => req.clone(),
    };
    let parent_version = match &e.version {
        Some(v) => v.clone(),
        None => text(""),
    };
    let required_by = join(join(entry_name_text(path, e).as_str(), "@").as_str(), parent_version.as_str());
    let mut chain: Vec<String> = Vec::new();
    chain.push(root_name.clone());
    let segs = segments_of(path);
    let mut k: usize = 0;
    while k < segs.len()
        invariant
            k <= segs@.len(),
            chain@.map_values(|s: String| s@) == seq![root_name@] + segs@.map_values(|s: String| s@).subrange(0, k as int),
        decreases segs@.len() - k,
    {
        let ghost before = chain@.map_values(|s: String| s@);
        let ghost sv = segs@.map_values(|s: String| s@);
        let seg = segs[k].clone();
        chain.push(seg);
        assert(chain@.map_values(|s: String| s@) =~= before.push(seg@));
        assert(sv.subrange(0, k + 1) =~= sv.subrange(0, k as int).push(sv[k as int]));
        assert(seq![root_name@] + sv.subrange(0, k + 1) =~= (seq![root_name@] + sv.subrange(0, k as int)).push(sv[k as int]));
        k = k + 1;
    }
    chain.push(text(target));
    assert(segs@.map_values(|s: String| s@).subrange(0, segs@.len() as int) =~= segs@.map_values(|s: String| s@));
    let r = WhyReason {
        location,
        version,
        required_by,
        requirement: req.clone(),
        dep_type: text(dep_type),
        chain,
    };
    assert(r@.chain =~= seq![root_name@] + path_segments(path@) + seq![target@]);
    reasons.push(r);
    assert(reasons_view(reasons@) =~= before.push(r@));
}

fn same_key_of(a: &WhyReason, b: &WhyReason) -> (r: bool)
    ensures
        r == same_key(a@, b@),
{
    chars_eq(&chars_of(a.location.as_str()), &chars_of(b.location.as_str())) && chars_eq(
        &chars_of(a.required_by.as_str()),
        &chars_of(b.required_by.as_str()),
    ) && chars_eq(&chars_of(a.requirement.as_str()), &chars_of(b.requirement.as_str()))
}

fn dedup_reasons(rs: Vec<WhyReason>) -> (out: Vec<WhyReason>)
    ensures
        reasons_view(out@) == dedup(reasons_view(rs@)),
{
    let ghost all = reasons_view(rs@);
    let mut keep: Vec<bool> = Vec::new();
    let mut i: usize = 0;
    while i < rs.len()
        invariant
            i <= rs@.len(),
            all == reasons_view(rs@),
            keep@.len() == i,
            forall|k: int|
                0 <= k < i ==> keep@[k] == !(exists|j: int| 0 <= j < k && same_key(#[trigger] all[j], all[k])),
        decreases rs@.len() - i,
    {
        let mut dup = false;
        let mut j: usize = 0;
        while j < i
            invariant
                j <= i,
                i < rs@.len(),
                all == reasons_view(rs@),
                dup == exists|m: int| 0 <= m < j && same_key(#[trigger] all[m], all[i as int]),
            decreases i - j,
        {
            assert(all[j as int] == rs@[j as int]@);
            assert(all[i as int] == rs@[i as int]@);
            if same_key_of(&rs[j], &rs[i]) {
                dup = true;
            }
            j = j + 1;
        }
        keep.push(!dup);
        i = i + 1;
    }
    let mut out: Vec<WhyReason> = Vec::new();
    let mut rest = rs;
    let n = rest.len();
    let mut idx: usize = 0;
    while idx < n
        invariant
            idx <= n,
            n == all.len(),
            keep@.len() == n,
            reasons_view(rest@) == all.subrange(idx as int, n as int),
            forall|k: int|
                0 <= k < n ==> keep@[k] == !(exists|j: int| 0 <= j < k && same_key(#[trigger] all[j], all[k])),
            reasons_view(out@) == dedup(all.subrange(0, idx as int)),
        decreases n - idx,
    {
        let ghost rv = reasons_view(rest@);
        assert(rv.len() == rest@.len());
        let r = rest.remove(0);
        assert(reasons_view(rest@) =~= rv.drop_first());
        assert(rv[0] == r@);
        let ghost sub = all.subrange(0, idx + 1);
        assert(sub.drop_last() =~= all.subrange(0, idx as int));
        assert(r@ == all[idx as int]);
        proof {
            assert((exists|j: int| 0 <= j < sub.len() - 1 && same_key(#[trigger] sub[j], sub.last()))
                == (exists|j: int| 0 <= j < idx && same_key(#[trigger] all[j], all[idx as int]))) by {
                if exists|j: int| 0 <= j < sub.len() - 1 && same_key(#[trigger] sub[j], sub.last()) {
                    let j = choose|j: int| 0 <= j < sub.len() - 1 && same_key(#[trigger] sub[j], sub.last());
                    assert(sub[j] == all[j]);
                }
                if exists|j: int| 0 <= j < idx && same_key(#[trigger] all[j], all[idx as int]) {
                    let j = choose|j: int| 0 <= j < idx && same_key(#[trigger] all[j], all[idx as int]);
                    assert(sub[j] == all[j]);
                }
            }
        }
        if keep[idx] {
            let ghost before = reasons_view(out@);
            out.push(r);
            assert(reasons_view(out@) =~= before.push(r@));
        }
        idx = idx + 1;
    }
    assert(all.subrange(0, n as int) =~= all);
    out
}

/// The reasons `target_pkg` is installed, from the project's manifest and lockfile.
pub fn explain_package(manifest: &PackageJson, lockfile: &PackageLock, target_pkg: &str) -> (r: WhyResult)
    ensures
        r.package@ == target_pkg@,
        reasons_view(r.reasons@) == dedup(all_reasons(*manifest, *lockfile, target_pkg@)),
{
    proof {
        reveal_strlit("root");
        reveal_strlit("");
        reveal_strlit("dependencies");
        reveal_strlit("devDependencies");
        reveal_strlit("optionalDependencies");
        reveal_strlit("peerDependencies");
    }
    let root_name = match &manifest.name {
        Some(n) => n.clone(),
        None => text("root"),
    };
    let root_version = match &manifest.version {
        Some(v) => v.clone(),
        None => text(""),
    };
    let mut reasons: Vec<WhyReason> = Vec::new();
    push_root_reason(&mut reasons, &manifest.dependencies, lockfile, &root_name, &root_version, target_pkg, "dependencies");
    push_root_reason(&mut reasons, &manifest.dev_dependencies, lockfile, &root_name, &root_version, target_pkg, "devDependencies");
    push_root_reason(&mut reasons, &manifest.optional_dependencies, lockfile, &root_name, &root_version, target_pkg, "optionalDependencies");
    push_root_reason(&mut reasons, &manifest.peer_dependencies, lockfile, &root_name, &root_version, target_pkg, "peerDependencies");
    let ghost roots = reasons_view(reasons@);
    let es = lockfile.packages.entries();
    let mut i: usize = 0;
    assert(es@.subrange(0, 0) =~= Seq::<(String, LockPackage)>::empty());
    assert(roots + lock_reasons(*lockfile, es@.subrange(0, 0), root_name@, target_pkg@) =~= roots);
    while i < es.len()
        invariant
            i <= es@.len(),
            es@ == lockfile.packages@,
            reasons_view(reasons@) == roots + lock_reasons(*lockfile, es@.subrange(0, i as int), root_name@, target_pkg@),
        decreases es@.len() - i,
    {
        let ghost sub = es@.subrange(0, i + 1);
        assert(sub.drop_last() =~= es@.subrange(0, i as int));
        assert(sub.last() == es@[i as int]);
        let (path, e) = (&es[i].0, &es[i].1);
        let ghost before = reasons_view(reasons@);
        if chars_of(path.as_str()).len() != 0 {
            push_entry_reason(&mut reasons, lockfile, &root_name, path, e, &e.dependencies, target_pkg, "dependencies");
            push_entry_reason(&mut reasons, lockfile, &root_name, path, e, &e.optional_dependencies, target_pkg, "optionalDependencies");
            push_entry_reason(&mut reasons, lockfile, &root_name, path, e, &e.peer_dependencies, target_pkg, "peerDependencies");
        }
        i = i + 1;
    }
    assert(es@.subrange(0, es@.len() as int) =~= es@);
    WhyResult { package: text(target_pkg), reasons: dedup_reasons(reasons) }
}

} // verus!
