//! The command line as plain data, and the decisions that the commands take
//! on their arguments before any I/O.
use vstd::prelude::*;

use crate::network::audit::{
    advisory_severity, all_advisories, lower_text, rank_of, severity_named, AdvisoryItem,
    AuditReport, Severity,
};
use crate::package::lockfile::PackageLock;
use crate::package::manifest::{DependencyType, PackageJson};
use crate::resolver::{texts, top_path, top_path_of, ResolvedNode};
use crate::strmap::{has_key, lookup, StrMap};
use crate::text::{
    chars_eq, chars_of, concat, find_char, find_seq, has_prefix, is_ws, lemma_find_single,
    lemma_split_all_nonempty, lemma_trim_ends, lemma_trim_fixed, slice_of, split_all, split_pieces, starts_with, string_of, strip_prefix, trim, trim_chars,
};

verus! {

/// Global options and the chosen subcommand.
#[derive(Debug, Clone)]
pub struct Cli {
    pub command: Option<Commands>,
    /// Path to package.json directory (workspace root or project directory)
    pub cwd: Option<String>,
    /// Workspace package to target (e.g. -w @my-scope/pkg or -w packages/pkg-a)
    pub workspace: Option<String>,
    /// Target all workspace packages
    pub workspaces: bool,
    /// Offline mode: use only cached packages
    pub offline: bool,
    /// Custom npm registry URL
    pub registry: Option<String>,
    /// Verbose output
    pub verbose: bool,
}

/// The subcommands and their arguments.
#[derive(Debug, Clone)]
pub enum Commands {
    /// Install dependencies according to package.json or add new packages
    Install {
        packages: Vec<String>,
        save_dev: bool,
        save_optional: bool,
        save_peer: bool,
        save_prod: bool,
        no_save: bool,
        ignore_scripts: bool,
        dry_run: bool,
        hardlink: bool,
    },
    /// Install dependencies strictly adhering to package-lock.json (clean install)
    Ci { ignore_scripts: bool },
    /// Remove packages from package.json and node_modules
    Uninstall { packages: Vec<String>, no_save: bool },
    /// Update packages to their latest versions matching semver in package.json
    Update { packages: Vec<String> },
    /// Run an arbitrary package script defined in package.json
    Run { script: String, args: Vec<String> },
    /// Execute a package binary (from local node_modules/.bin or npx-style)
    Exec { command: String, args: Vec<String>, yes: bool },
    /// Run a project initializer package (`create-*`)
    Create { template: String, args: Vec<String>, yes: bool },
    /// Scan dependencies for known security vulnerabilities
    Audit { format: String, audit_level: String, omit_dev: bool },
    /// Compare installed packages with the versions the registry offers
    Outdated { packages: Vec<String>, json: bool, prod: bool, dev: bool },
    /// Explain why a package is installed
    Why { package: String, json: bool },
    /// Generate a Software Bill of Materials (SBOM) in CycloneDX or SPDX JSON format
    Sbom { format: String, output: Option<String> },
}

/// `s` split at its first `@`: the part before it and the rest starting with the `@`.
pub open spec fn split_at_tag(s: Seq<char>) -> (Seq<char>, Seq<char>) {
    match find_seq(s, seq!['@']) {
        Some(i) => (s.subrange(0, i), s.subrange(i, s.len() as int)),
        None => (s, Seq::<char>::empty()),
    }
}

/// The initializer package that `bolt create <template>` runs.
pub open spec fn create_package_name(template: Seq<char>) -> Seq<char> {
    let t = trim(template);
    if t.len() == 0 {
        "create"@
    } else if has_prefix(t, "@"@) {
        let s = t.subrange(1, t.len() as int);
        match find_seq(s, seq!['/']) {
            Some(si) => {
                let scope = s.subrange(0, si);
                let rest = s.subrange(si + 1, s.len() as int);
                let pkg = split_at_tag(rest).0;
                let tag = split_at_tag(rest).1;
                let target = if has_prefix(pkg, "create-"@) || pkg == "create"@ {
                    pkg
                } else {
                    "create-"@ + pkg
                };
                "@"@ + scope + "/"@ + target + tag
            },
            None => {
                let scope = split_at_tag(s).0;
                let tag = split_at_tag(s).1;
                "@"@ + scope + "/create"@ + tag
            },
        }
    } else {
        let pkg = split_at_tag(t).0;
        let tag = split_at_tag(t).1;
        let target = if has_prefix(pkg, "create-"@) {
            pkg
        } else {
            "create-"@ + pkg
        };
        target + tag
    }
}

/// The two parts of `split_at_tag` make up the text; the first holds no `@`,
/// the second is empty or starts with the `@`.
pub proof fn lemma_split_at_tag(s: Seq<char>)
    ensures
        s == split_at_tag(s).0 + split_at_tag(s).1,
        !split_at_tag(s).0.contains('@'),
        split_at_tag(s).1.len() == 0 || split_at_tag(s).1[0] == '@',
        split_at_tag(s).1.len() == 0 ==> split_at_tag(s).0 == s,
{
    lemma_find_single(s, '@');
    match find_seq(s, seq!['@']) {
        Some(i) => {
            assert(s =~= s.subrange(0, i) + s.subrange(i, s.len() as int));
            assert forall|j: int| 0 <= j < i implies s.subrange(0, i)[j] != '@' by {
                assert(s.subrange(0, i)[j] == s[j]);
            }
        },
        None => {
            assert(s =~= s + Seq::<char>::empty());
        },
    }
}

/// Splitting a text made of a part without `@` and a part that starts with
/// one (or is empty) gives those two parts back.
pub proof fn lemma_split_at_tag_of(p: Seq<char>, g: Seq<char>)
    requires
        !p.contains('@'),
        g.len() == 0 || g[0] == '@',
    ensures
        split_at_tag(p + g) == (p, g),
{
    let s = p + g;
    lemma_find_single(s, '@');
    if g.len() == 0 {
        assert(s =~= p);
        assert(p + Seq::<char>::empty() =~= p);
    } else {
        assert(s[p.len() as int] == '@');
        let i = find_seq(s, seq!['@'])->0;
        if i < p.len() {
            assert(p[i] == s[i]);
        }
        assert(i == p.len());
        assert(s.subrange(0, i) =~= p);
        assert(s.subrange(i, s.len() as int) =~= g);
    }
}

/// A one-character separator that the first part does not hold is found right after it.
pub proof fn lemma_find_after_clean(p: Seq<char>, c: char, rest: Seq<char>)
    requires
        !p.contains(c),
    ensures
        find_seq(p + seq![c] + rest, seq![c]) == Some(p.len() as int),
{
    let s = p + seq![c] + rest;
    assert(s[p.len() as int] == c);
    lemma_find_single(s, c);
    let i = find_seq(s, seq![c])->0;
    if i < p.len() {
        assert(p[i] == s[i]);
    }
}

/// Neither character starts or ends white space.
proof fn lemma_marks_not_ws()
    ensures
        !is_ws('c'),
        !is_ws('@'),
        !is_ws('-'),
        !is_ws('e'),
{
}

/// A name without `@` with `create-` put in front still holds no `@`.
proof fn lemma_create_dash_clean(pkg: Seq<char>)
    requires
        !pkg.contains('@'),
    ensures
        !("create-"@ + pkg).contains('@'),
        ("create-"@ + pkg).len() > 0,
        ("create-"@ + pkg)[0] == 'c',
        ("create-"@ + pkg).last() == (if pkg.len() > 0 { pkg.last() } else { '-' }),
        has_prefix("create-"@ + pkg, "create-"@),
{
    reveal_strlit("create-");
    let t = "create-"@ + pkg;
    assert forall|i: int| 0 <= i < t.len() implies t[i] != '@' by {
        if i >= 7 {
            assert(t[i] == pkg[i - 7]);
        }
    }
    assert(t.subrange(0, 7) =~= "create-"@);
}

pub(crate) proof fn lemma_create_name_plain(t: Seq<char>)
    requires
        trim(t).len() > 0,
        !has_prefix(trim(t), "@"@),
    ensures
        create_package_name(create_package_name(t)) == create_package_name(t),
{
    reveal_strlit("@");
    reveal_strlit("create-");
    let tt = trim(t);
    lemma_trim_ends(t);
    lemma_marks_not_ws();
    lemma_split_at_tag(tt);
    let pkg = split_at_tag(tt).0;
    let tag = split_at_tag(tt).1;
    if pkg.len() == 0 {
        assert(tt =~= tag);
        assert(tt.subrange(0, 1) =~= "@"@);
    }
    lemma_create_dash_clean(pkg);
    let target = if has_prefix(pkg, "create-"@) {
        pkg
    } else {
        "create-"@ + pkg
    };
    if has_prefix(pkg, "create-"@) {
        assert(pkg[0] == pkg.subrange(0, 7)[0]);
    }
    assert(has_prefix(target, "create-"@));
    assert(!target.contains('@'));
    assert(target[0] == 'c');
    assert(target.len() > 0 && target.last() == pkg.last());
    let r = target + tag;
    assert(create_package_name(t) == r);
    assert(r[0] == 'c');
    if tag.len() > 0 {
        assert(r.last() == tag.last());
        assert(tt.last() == tag.last());
    } else {
        assert(r.last() == target.last());
        assert(tt =~= pkg);
    }
    lemma_trim_fixed(r);
    assert(r.subrange(0, 1)[0] == 'c');
    assert(!has_prefix(r, "@"@));
    lemma_split_at_tag_of(target, tag);
}

pub(crate) proof fn lemma_create_name_scoped(t: Seq<char>)
    requires
        trim(t).len() > 0,
        has_prefix(trim(t), "@"@),
        find_seq(trim(t).subrange(1, trim(t).len() as int), seq!['/']) is Some,
    ensures
        create_package_name(create_package_name(t)) == create_package_name(t),
{
    reveal_strlit("@");
    reveal_strlit("/");
    reveal_strlit("create");
    reveal_strlit("create-");
    let tt = trim(t);
    lemma_trim_ends(t);
    lemma_marks_not_ws();
    let s = tt.subrange(1, tt.len() as int);
    lemma_find_single(s, '/');
    let si = find_seq(s, seq!['/'])->0;
    let scope = s.subrange(0, si);
    let rest = s.subrange(si + 1, s.len() as int);
    assert forall|j: int| 0 <= j < scope.len() implies scope[j] != '/' by {
        assert(scope[j] == s[j]);
    }
    lemma_split_at_tag(rest);
    let pkg = split_at_tag(rest).0;
    let tag = split_at_tag(rest).1;
    lemma_create_dash_clean(pkg);
    let target = if has_prefix(pkg, "create-"@) || pkg == "create"@ {
        pkg
    } else {
        "create-"@ + pkg
    };
    assert(has_prefix(target, "create-"@) || target == "create"@);
    assert(!target.contains('@'));
    let r = "@"@ + scope + "/"@ + target + tag;
    assert(create_package_name(t) == r);
    assert(tt.subrange(0, 1) == "@"@);
    assert(tt =~= tt.subrange(0, 1) + s);
    assert(s =~= scope + "/"@ + rest);
    assert(tt =~= "@"@ + scope + "/"@ + pkg + tag);
    if tag.len() > 0 {
        assert(r.last() == tag.last());
    } else if pkg.len() > 0 {
        assert(r.last() == target.last());
        assert(target.last() == pkg.last()) by {
            if target != pkg {
                assert(target == "create-"@ + pkg);
            }
        }
        assert(tt.last() == pkg.last());
    } else {
        assert(pkg =~= Seq::<char>::empty());
        assert(target == "create-"@ + pkg);
        assert(r.last() == target.last());
    }
    lemma_trim_fixed(r);
    assert(r.subrange(0, 1) =~= "@"@);
    let s2 = r.subrange(1, r.len() as int);
    assert(s2 =~= scope + seq!['/'] + (target + tag));
    lemma_find_after_clean(scope, '/', target + tag);
    assert(s2.subrange(0, scope.len() as int) =~= scope);
    assert(s2.subrange(scope.len() as int + 1, s2.len() as int) =~= target + tag);
    lemma_split_at_tag_of(target, tag);
}

pub(crate) proof fn lemma_create_name_scope_only(t: Seq<char>)
    requires
        trim(t).len() > 0,
        has_prefix(trim(t), "@"@),
        find_seq(trim(t).subrange(1, trim(t).len() as int), seq!['/']) is None,
    ensures
        create_package_name(create_package_name(t)) == create_package_name(t),
{
    reveal_strlit("@");
    reveal_strlit("/");
    reveal_strlit("create");
    reveal_strlit("/create");
    let tt = trim(t);
    lemma_trim_ends(t);
    lemma_marks_not_ws();
    let s = tt.subrange(1, tt.len() as int);
    lemma_find_single(s, '/');
    lemma_split_at_tag(s);
    let scope = split_at_tag(s).0;
    let tag = split_at_tag(s).1;
    assert forall|j: int| 0 <= j < scope.len() implies scope[j] != '/' by {
        assert(scope[j] == s[j]);
    }
    let r = "@"@ + scope + "/create"@ + tag;
    assert(create_package_name(t) == r);
    assert(tt.subrange(0, 1) == "@"@);
    assert(tt =~= tt.subrange(0, 1) + s);
    assert(tt =~= "@"@ + scope + tag);
    if tag.len() > 0 {
        assert(r.last() == tag.last());
    } else {
        assert(r.last() == 'e');
    }
    lemma_trim_fixed(r);
    assert(r.subrange(0, 1) =~= "@"@);
    let s2 = r.subrange(1, r.len() as int);
    assert(s2 =~= scope + seq!['/'] + ("create"@ + tag));
    lemma_find_after_clean(scope, '/', "create"@ + tag);
    assert(s2.subrange(0, scope.len() as int) =~= scope);
    assert(s2.subrange(scope.len() as int + 1, s2.len() as int) =~= "create"@ + tag);
    assert(!"create"@.contains('@')) by {
        assert forall|i: int| 0 <= i < 6 implies "create"@[i] != '@' by {}
    }
    lemma_split_at_tag_of("create"@, tag);
    assert("@"@ + scope + "/"@ + "create"@ + tag =~= r);
}

fn split_at_tag_chars(s: &Vec<char>) -> (r: (Vec<char>, Vec<char>))
    ensures
        r.0@ == split_at_tag(s@).0,
        r.1@ == split_at_tag(s@).1,
{
    let n = s.len();
    match find_char(s, '@') {
        Some(i) => (slice_of(s, 0, i), slice_of(s, i, n)),
        None => {
            assert(s@.subrange(0, n as int) =~= s@);
            (slice_of(s, 0, n), Vec::new())
        },
    }
}

/// Transform template specifier into npm initializer package name:
/// - `vite` -> `create-vite`
/// - `vite@latest` -> `create-vite@latest`
/// - `@scope` -> `@scope/create`
/// - `@scope@latest` -> `@scope/create@latest`
/// - `@scope/app` -> `@scope/create-app`
/// - `@scope/app@latest` -> `@scope/create-app@latest`
/// - `create-foo` -> `create-foo`
/// - `@scope/create-foo` -> `@scope/create-foo`
pub fn resolve_create_package_name(template: &str) -> (r: String)
    ensures
        r@ == create_package_name(template@),
{
    let t = trim_chars(&chars_of(template));
    if t.len() == 0 {
        return string_of(chars_of("create"));
    }
    if let Some(s) = strip_prefix(&t, &chars_of("@")) {
        proof {
            reveal_strlit("@");
        }
        let n = s.len();
        match find_char(&s, '/') {
            Some(si) => {
                let scope = slice_of(&s, 0, si);
                let rest = slice_of(&s, si + 1, n);
                let (pkg, tag) = split_at_tag_chars(&rest);
                let target = if starts_with(&pkg, &chars_of("create-")) || chars_eq(
                    &pkg,
                    &chars_of("create"),
                ) {
                    pkg
                } else {
                    concat(&chars_of("create-"), &pkg)
                };
                let a = concat(&chars_of("@"), &scope);
                let b = concat(&a, &chars_of("/"));
                let c = concat(&b, &target);
                string_of(concat(&c, &tag))
            },
            None => {
                let (scope, tag) = split_at_tag_chars(&s);
                let a = concat(&chars_of("@"), &scope);
                let b = concat(&a, &chars_of("/create"));
                string_of(concat(&b, &tag))
            },
        }
    } else {
        let (pkg, tag) = split_at_tag_chars(&t);
        let target = if starts_with(&pkg, &chars_of("create-")) {
            pkg
        } else {
            concat(&chars_of("create-"), &pkg)
        };
        string_of(concat(&target, &tag))
    }
}

/// The requirement written to `package.json` for a package added on the command
/// line: a bare version `1.2.3` becomes the caret range `^1.2.3`, `latest`
/// becomes a caret range on the registry's `latest` tag (`^1.0.0` when the
/// registry has none), and any other requirement is kept as given.
pub fn requirement_to_save(req: &str, latest_tag: Option<&str>) -> (r: String)
    ensures
        req@ == "latest"@ ==> r@ == match latest_tag {
            Some(v) => "^"@ + v@,
            None => "^1.0.0"@,
        },
        req@ != "latest"@ && req@.len() > 0 && '0' <= req@[0] <= '9' ==> r@ == "^"@ + req@,
        req@ != "latest"@ && !(req@.len() > 0 && '0' <= req@[0] <= '9') ==> r@ == req@,
{
    let q = chars_of(req);
    if chars_eq(&q, &chars_of("latest")) {
        match latest_tag {
            Some(v) => string_of(concat(&chars_of("^"), &chars_of(v))),
            None => string_of(chars_of("^1.0.0")),
        }
    } else if q.len() > 0 && '0' <= q[0] && q[0] <= '9' {
        string_of(concat(&chars_of("^"), &q))
    } else {
        string_of(q)
    }
}

/// What `bolt` does when no subcommand is given: install, with every option off.
pub fn default_command() -> (c: Commands)
    ensures
        c matches Commands::Install {
            packages,
            save_dev,
            save_optional,
            save_peer,
            save_prod,
            no_save,
            ignore_scripts,
            dry_run,
            hardlink,
        } && packages@.len() == 0 && !save_dev && !save_optional && !save_peer && !save_prod
            && !no_save && !ignore_scripts && !dry_run && !hardlink,
{
    Commands::Install {
        packages: Vec::new(),
        save_dev: false,
        save_optional: false,
        save_peer: false,
        save_prod: false,
        no_save: false,
        ignore_scripts: false,
        dry_run: false,
        hardlink: false,
    }
}

/// The table packages added on the command line are saved to: dev, else
/// optional, else peer, else production dependencies.
pub fn dependency_type_for(save_dev: bool, save_optional: bool, save_peer: bool) -> (t: DependencyType)
    ensures
        t == if save_dev {
            DependencyType::Dev
        } else if save_optional {
            DependencyType::Optional
        } else if save_peer {
            DependencyType::Peer
        } else {
            DependencyType::Prod
        },
{
    if save_dev {
        DependencyType::Dev
    } else if save_optional {
        DependencyType::Optional
    } else if save_peer {
        DependencyType::Peer
    } else {
        DependencyType::Prod
    }
}

/// A dependency table as text pairs, in key order.
pub open spec fn table_view(t: Option<StrMap<String>>) -> Option<Seq<(Seq<char>, Seq<char>)>> {
    match t {
        Some(m) => Some(m@.map_values(|e: (String, String)| (e.0@, e.1@))),
        None => None,
    }
}

fn same_table(a: &Option<StrMap<String>>, b: &Option<StrMap<String>>) -> (r: bool)
    ensures
        r == (table_view(*a) == table_view(*b)),
{
    match (a, b) {
        (None, None) => true,
        (Some(x), Some(y)) => {
            let xs = x.entries();
            let ys = y.entries();
            let ghost xv = x@.map_values(|e: (String, String)| (e.0@, e.1@));
            let ghost yv = y@.map_values(|e: (String, String)| (e.0@, e.1@));
            assert(xv.len() == xs@.len() && yv.len() == ys@.len());
            if xs.len() != ys.len() {
                assert(xv.len() != yv.len());
                return false;
            }
            let mut i: usize = 0;
            while i < xs.len()
                invariant
                    i <= xs@.len(),
                    xs@.len() == ys@.len(),
                    xs@ == x@,
                    ys@ == y@,
                    *a == Some(*x),
                    *b == Some(*y),
                    xv == x@.map_values(|e: (String, String)| (e.0@, e.1@)),
                    yv == y@.map_values(|e: (String, String)| (e.0@, e.1@)),
                    forall|j: int| 0 <= j < i ==> xv[j] == yv[j],
                decreases xs@.len() - i,
            {
                if !chars_eq(&chars_of(xs[i].0.as_str()), &chars_of(ys[i].0.as_str())) || !chars_eq(
                    &chars_of(xs[i].1.as_str()),
                    &chars_of(ys[i].1.as_str()),
                ) {
                    assert(xv[i as int] != yv[i as int]);
                    return false;
                }
                assert(xv[i as int] == yv[i as int]);
                i = i + 1;
            }
            assert(xv =~= yv);
            true
        },
        _ => false,
    }
}

/// `bolt ci` refuses a lockfile whose root entry disagrees with the manifest.
pub enum CiError {
    OutOfSync,
}

/// The lockfile's root entry, when it has one, lists other dependencies or dev
/// dependencies than the manifest.
pub open spec fn lock_out_of_sync(manifest: PackageJson, lock: PackageLock) -> bool {
    lookup(lock.packages@, Seq::empty()) matches Some(root) && (table_view(manifest.dependencies)
        != table_view(root.dependencies) || table_view(manifest.dev_dependencies) != table_view(
        root.dev_dependencies,
    ))
}

/// A clean install needs the root entry of the lockfile, when it has one, to
/// list the manifest's dependencies and dev dependencies exactly.
pub fn check_lock_in_sync(manifest: &PackageJson, lock: &PackageLock) -> (r: Result<(), CiError>)
    ensures
        r is Err <==> lock_out_of_sync(*manifest, *lock),
{
    proof {
        reveal_strlit("");
    }
    assert(""@ =~= Seq::<char>::empty());
    match lock.packages.get(&chars_of("")) {
        Some(root) => {
            if !same_table(&manifest.dependencies, &root.dependencies) || !same_table(
                &manifest.dev_dependencies,
                &root.dev_dependencies,
            ) {
                Err(CiError::OutOfSync)
            } else {
                Ok(())
            }
        },
        None => Ok(()),
    }
}

/// The lockfile an update resolves against: none for a full update; for named
/// packages, the lockfile without their top-level entries.
pub fn update_constraints(lock: Option<PackageLock>, packages: &[String]) -> (r: Option<PackageLock>)
    ensures
        packages@.len() == 0 ==> r is None,
        packages@.len() > 0 ==> match lock {
            None => r is None,
            Some(l) => r matches Some(n) && n.name == l.name && n.version == l.version
                && n.lockfile_version == l.lockfile_version && n.requires == l.requires
                && n.dependencies == l.dependencies && forall|q: Seq<char>|
                lookup(n.packages@, q) == if exists|i: int|
                    0 <= i < packages@.len() && q == "node_modules/"@ + (#[trigger] packages@[i])@ {
                    None
                } else {
                    lookup(l.packages@, q)
                },
        },
{
    if packages.len() == 0 {
        return None;
    }
    let mut l = match lock {
        Some(l) => l,
        None => {
            return None;
        },
    };
    let ghost before = l.packages@;
    let ghost l0 = l;
    proof {
        reveal_strlit("node_modules/");
    }
    let mut i: usize = 0;
    while i < packages.len()
        invariant
            i <= packages@.len(),
            l.name == l0.name,
            l.version == l0.version,
            l.lockfile_version == l0.lockfile_version,
            l.requires == l0.requires,
            l.dependencies == l0.dependencies,
            forall|q: Seq<char>|
                lookup(l.packages@, q) == if exists|j: int|
                    0 <= j < i && q == "node_modules/"@ + (#[trigger] packages@[j])@ {
                    None
                } else {
                    lookup(before, q)
                },
        decreases packages@.len() - i,
    {
        let key = concat(&chars_of("node_modules/"), &chars_of(packages[i].as_str()));
        let ghost prev = l.packages@;
        let _ = l.packages.remove(&key);
        assert forall|q: Seq<char>|
            lookup(l.packages@, q) == if exists|j: int|
                0 <= j < i + 1 && q == "node_modules/"@ + (#[trigger] packages@[j])@ {
                None
            } else {
                lookup(before, q)
            } by {
            if q == key@ {
                assert(q == "node_modules/"@ + packages@[i as int]@);
            } else {
                assert(lookup(l.packages@, q) == lookup(prev, q));
                if exists|j: int| 0 <= j < i + 1 && q == "node_modules/"@ + (#[trigger] packages@[j])@ {
                    let j = choose|j: int| 0 <= j < i + 1 && q == "node_modules/"@ + (#[trigger] packages@[j])@;
                    assert(j != i);
                }
            }
        }
        i = i + 1;
    }
    Some(l)
}

/// Whether an audit fails: some advisory is at least as severe as the level asked for.
pub fn audit_fails(report: &AuditReport, audit_level: &str) -> (r: bool)
    ensures
        r == exists|i: int|
            0 <= i < all_advisories(report.advisories@).len() && rank_of(
                advisory_severity(#[trigger] all_advisories(report.advisories@)[i]),
            ) >= rank_of(severity_named(audit_level@)),
{
    let threshold = Severity::from_str_loose(audit_level).rank();
    let es = report.advisories.entries();
    let mut i: usize = 0;
    let ghost all = all_advisories(report.advisories@);
    assert(es@.subrange(0, 0) =~= Seq::<(String, Vec<AdvisoryItem>)>::empty());
    while i < es.len()
        invariant
            i <= es@.len(),
            es@ == report.advisories@,
            threshold == rank_of(severity_named(audit_level@)),
            all == all_advisories(report.advisories@),
            forall|k: int|
                0 <= k < all_advisories(es@.subrange(0, i as int)).len() ==> rank_of(
                    advisory_severity(#[trigger] all_advisories(es@.subrange(0, i as int))[k]),
                ) < threshold,
        decreases es@.len() - i,
    {
        let ghost pre = all_advisories(es@.subrange(0, i as int));
        let ghost sub = es@.subrange(0, i + 1);
        assert(sub.drop_last() =~= es@.subrange(0, i as int));
        let list = &es[i].1;
        assert(all_advisories(sub) == pre + list@);
        let mut j: usize = 0;
        while j < list.len()
            invariant
                j <= list@.len(),
                i < es@.len(),
                es@ == report.advisories@,
                *list == es@[i as int].1,
                all == all_advisories(report.advisories@),
                sub == es@.subrange(0, i + 1),
                pre == all_advisories(es@.subrange(0, i as int)),
                all_advisories(sub) == pre + list@,
                threshold == rank_of(severity_named(audit_level@)),
                forall|k: int| 0 <= k < j ==> rank_of(advisory_severity(#[trigger] list@[k])) < threshold,
            decreases list@.len() - j,
        {
            let s = match &list[j].severity {
                Some(t) => Severity::from_str_loose(t.as_str()),
                None => Severity::Low,
            };
            if s.rank() >= threshold {
                proof {
                    lemma_prefix_in_all(es@, i as int);
                    assert(all_advisories(sub)[pre.len() + j] == list@[j as int]);
                    assert(all[pre.len() + j] == list@[j as int]);
                    assert(rank_of(advisory_severity(all[pre.len() + j])) >= threshold);
                }
                return true;
            }
            j = j + 1;
        }
        assert forall|k: int|
            0 <= k < all_advisories(sub).len() implies rank_of(
                advisory_severity(#[trigger] all_advisories(sub)[k]),
            ) < threshold by {
            if k < pre.len() {
                assert(all_advisories(sub)[k] == pre[k]);
            } else {
                assert(all_advisories(sub)[k] == list@[k - pre.len()]);
            }
        }
        i = i + 1;
    }
    assert(es@.subrange(0, es@.len() as int) =~= es@);
    false
}

proof fn lemma_prefix_in_all(advs: Seq<(String, Vec<AdvisoryItem>)>, i: int)
    requires
        0 <= i < advs.len(),
    ensures
        forall|k: int|
            0 <= k < all_advisories(advs.subrange(0, i + 1)).len() ==> all_advisories(advs)[k]
                == #[trigger] all_advisories(advs.subrange(0, i + 1))[k],
        all_advisories(advs.subrange(0, i + 1)).len() <= all_advisories(advs).len(),
    decreases advs.len(),
{
    if i + 1 < advs.len() {
        let d = advs.drop_last();
        lemma_prefix_in_all(d, i);
        assert(d.subrange(0, i + 1) =~= advs.subrange(0, i + 1));
        assert(all_advisories(advs) == all_advisories(d) + advs.last().1@);
    } else {
        assert(advs.subrange(0, i + 1) =~= advs);
    }
}

/// The binary an initializer package installs: its name without scope or tag.
pub open spec fn create_bin_name_of(spec: Seq<char>) -> Seq<char> {
    if has_prefix(spec, "@"@) {
        let parts = split_all(spec, "/"@);
        let piece = if parts.len() > 1 {
            parts[1]
        } else {
            spec
        };
        split_all(piece, "@"@)[0]
    } else {
        split_all(spec, "@"@)[0]
    }
}

pub fn create_bin_name(package_spec: &str) -> (r: String)
    ensures
        r@ == create_bin_name_of(package_spec@),
{
    let s = chars_of(package_spec);
    proof {
        reveal_strlit("@");
        reveal_strlit("/");
    }
    let at = chars_of("@");
    let piece = if starts_with(&s, &at) {
        let parts = split_pieces(&s, &chars_of("/"));
        if parts.len() > 1 {
            assert(parts@[1]@ == split_all(s@, "/"@)[1]);
            slice_of(&parts[1], 0, parts[1].len())
        } else {
            slice_of(&s, 0, s.len())
        }
    } else {
        slice_of(&s, 0, s.len())
    };
    assert(piece@ == if has_prefix(s@, "@"@) {
        if split_all(s@, "/"@).len() > 1 {
            split_all(s@, "/"@)[1]
        } else {
            s@
        }
    } else {
        s@
    });
    let pieces = split_pieces(&piece, &at);
    proof {
        lemma_split_all_nonempty(piece@, "@"@);
    }
    assert(pieces@[0]@ == split_all(piece@, "@"@)[0]);
    let r = slice_of(&pieces[0], 0, pieces[0].len());
    assert(r@ =~= pieces@[0]@);
    string_of(r)
}

/// Whether the answer to "Ok to proceed? (y)" proceeds: `y`, `yes` (any case)
/// or nothing, around white space.
pub fn exec_confirmed(answer: &str) -> (r: bool)
    ensures
        r == (lower_text(trim(answer@)) == "y"@ || lower_text(trim(answer@)) == "yes"@ || trim(
            answer@,
        ).len() == 0),
{
    let t = trim_chars(&chars_of(answer));
    let l = crate::network::audit::lower_chars(string_of(t).as_str());
    assert(lower_text(trim(answer@)).len() == trim(answer@).len());
    chars_eq(&l, &chars_of("y")) || chars_eq(&l, &chars_of("yes")) || l.len() == 0
}

/// Whether the SBOM format asked for is SPDX (any case); anything else is CycloneDX.
pub fn wants_spdx(format: &str) -> (r: bool)
    ensures
        r == (lower_text(format@) == "spdx"@),
{
    let l = crate::network::audit::lower_chars(format);
    chars_eq(&l, &chars_of("spdx"))
}

/// The top-level directories of `node_modules` that uninstalling `packages`
/// removes: each package's own, unless the resolution that follows still
/// installs a package there.
pub open spec fn removed_dirs(packages: Seq<Seq<char>>, kept: Seq<(String, ResolvedNode)>) -> Seq<
    Seq<char>,
>
    decreases packages.len(),
{
    if packages.len() == 0 {
        Seq::empty()
    } else {
        let rest = removed_dirs(packages.drop_last(), kept);
        let dir = top_path(packages.last());
        if has_key(kept, dir) {
            rest
        } else {
            rest.push(dir)
        }
    }
}

/// The directories, relative to the project, that `bolt uninstall` removes
/// once the remaining dependencies have been resolved again.
pub fn uninstall_removals(packages: &Vec<String>, resolved: &StrMap<ResolvedNode>) -> (r: Vec<String>)
    ensures
        texts(r@) == removed_dirs(texts(packages@), resolved@),
{
    let mut r: Vec<String> = Vec::new();
    let mut i: usize = 0;
    assert(texts(packages@).subrange(0, 0) =~= Seq::<Seq<char>>::empty());
    assert(texts(r@) =~= Seq::<Seq<char>>::empty());
    while i < packages.len()
        invariant
            i <= packages@.len(),
            texts(r@) == removed_dirs(texts(packages@).subrange(0, i as int), resolved@),
        decreases packages@.len() - i,
    {
        let ghost before = texts(packages@).subrange(0, i as int);
        let ghost upto = texts(packages@).subrange(0, i + 1);
        assert(upto.drop_last() =~= before);
        assert(upto.last() == packages@[i as int]@);
        let dir = top_path_of(&packages[i]);
        let present = resolved.contains_key(&chars_of(dir.as_str()));
        if !present {
            let ghost old_r = r@;
            r.push(dir);
            assert(texts(r@) =~= texts(old_r).push(dir@));
        }
        i = i + 1;
    }
    assert(texts(packages@).subrange(0, packages@.len() as int) =~= texts(packages@));
    r
}

} // verus!
