//! Dependency specifiers: how a `package.json` requirement or a command-line
//! package argument is classified (registry range, npm alias, local path,
//! git repository, tarball URL) and taken apart.
use vstd::prelude::*;

use crate::package::version::{
    compare_versions, lemma_precedence_flip, lemma_precedence_refl, lemma_precedence_trans,
    precedence, Order, SemIdent, SemVersion, VersionView,
};
use crate::strmap::{lookup, StrMap};
use crate::text::{
    chars_of, concat, contains, contains_seq, ends_with, find_char, find_seq, has_prefix,
    has_suffix, rfind, rfind_char, chars_eq, slice_of, starts_with, string_of, strip_prefix, strip_suffix,
    trim, trim_chars, trim_end_char, trim_end_matches_char, split_all, split_pieces,
    split_whitespace_tokens, ws_tokens, occurs_at,
};

verus! {

/// Parsed representation of a package dependency requirement,
/// supporting standard dependencies, npm aliases, local files, git repos, and tarball URLs.
#[derive(Debug, Clone, PartialEq, Eq)]
pub struct DependencySpec {
    /// The actual package name or path
    pub registry_name: String,
    /// The version constraint, file path, git URL, or tarball URL
    pub version_req: String,
    /// If an alias was used, this holds the custom alias name (key in dependencies)
    pub alias_name: Option<String>,
    /// Whether this is a local path dependency (`file:...`)
    pub is_local_file: bool,
    /// Whether this is a git dependency (`git+...`, `git://...`, `github:...`, etc.)
    pub is_git: bool,
    /// Whether this is a direct remote tarball URL
    pub is_tarball_url: bool,
}

/// Why a package argument was refused.
#[derive(Debug, Clone, Copy, PartialEq, Eq)]
pub enum SpecError {
    /// The specifier holds nothing but white space.
    EmptySpecifier,
}

pub open spec fn http_url_ending_git(s: Seq<char>, scheme: Seq<char>) -> bool {
    has_prefix(s, scheme) && (has_suffix(s, ".git"@) || contains_seq(s, ".git#"@))
}

/// A git URL or shorthand, judged on the trimmed text.
pub open spec fn spec_is_git(req: Seq<char>) -> bool {
    let s = trim(req);
    ||| has_prefix(s, "git+"@)
    ||| has_prefix(s, "git://"@)
    ||| has_prefix(s, "git@"@)
    ||| has_prefix(s, "github:"@)
    ||| has_prefix(s, "gitlab:"@)
    ||| has_prefix(s, "bitbucket:"@)
    ||| http_url_ending_git(s, "https://"@)
    ||| http_url_ending_git(s, "http://"@)
}

/// A direct tarball URL, judged on the trimmed text.
pub open spec fn spec_is_tarball(req: Seq<char>) -> bool {
    let s = trim(req);
    &&& !spec_is_git(s)
    &&& has_prefix(s, "https://"@) || has_prefix(s, "http://"@)
    &&& {
        ||| has_suffix(s, ".tgz"@)
        ||| has_suffix(s, ".tar.gz"@)
        ||| has_suffix(s, ".tar"@)
        ||| contains_seq(s, ".tgz?"@)
        ||| contains_seq(s, ".tar.gz?"@)
    }
}

/// `s` without its first `n` characters.
pub open spec fn after(s: Seq<char>, n: int) -> Seq<char> {
    s.subrange(n, s.len() as int)
}

/// The URL part of a git specifier (before the first `#`).
pub open spec fn git_url_part(spec: Seq<char>) -> Seq<char> {
    let t = trim(spec);
    match find_seq(t, seq!['#']) {
        Some(i) => t.subrange(0, i),
        None => t,
    }
}

/// The committish of a git specifier (after the first `#`).
pub open spec fn git_committish(spec: Seq<char>) -> Option<Seq<char>> {
    let t = trim(spec);
    match find_seq(t, seq!['#']) {
        Some(i) => Some(after(t, i + 1)),
        None => None,
    }
}

/// The cloneable URL that a git specifier stands for.
pub open spec fn git_clone_url(spec: Seq<char>) -> Seq<char> {
    let u = git_url_part(spec);
    if has_prefix(u, "github:"@) {
        "https://github.com/"@ + after(u, "github:"@.len() as int) + ".git"@
    } else if has_prefix(u, "gitlab:"@) {
        "https://gitlab.com/"@ + after(u, "gitlab:"@.len() as int) + ".git"@
    } else if has_prefix(u, "bitbucket:"@) {
        "https://bitbucket.org/"@ + after(u, "bitbucket:"@.len() as int) + ".git"@
    } else if has_prefix(u, "git+ssh://"@) {
        "ssh://"@ + after(u, "git+ssh://"@.len() as int)
    } else if has_prefix(u, "git+https://"@) {
        "https://"@ + after(u, "git+https://"@.len() as int)
    } else if has_prefix(u, "git+http://"@) {
        "http://"@ + after(u, "git+http://"@.len() as int)
    } else if has_prefix(u, "git+file://"@) {
        "file://"@ + after(u, "git+file://"@.len() as int)
    } else {
        u
    }
}

/// What follows the last `/` (all of `s` when there is none).
pub open spec fn after_last_slash(s: Seq<char>) -> Seq<char> {
    match rfind_char(s, '/') {
        Some(i) => after(s, i + 1),
        None => s,
    }
}

/// The repository name taken from a git specifier.
pub open spec fn git_repo_name(spec: Seq<char>) -> Seq<char> {
    let u = git_clone_url(spec);
    let t = trim_end_char(u, '/');
    let base = if has_suffix(t, ".git"@) {
        t.subrange(0, t.len() - ".git"@.len())
    } else {
        u
    };
    after_last_slash(base)
}

/// The package name taken from a tarball URL.
pub open spec fn tarball_pkg_name(t: Seq<char>) -> Seq<char> {
    let path = match find_seq(t, seq!['?']) {
        Some(i) => t.subrange(0, i),
        None => t,
    };
    let f = after_last_slash(path);
    if has_suffix(f, ".tgz"@) {
        f.subrange(0, f.len() - ".tgz"@.len())
    } else if has_suffix(f, ".tar.gz"@) {
        f.subrange(0, f.len() - ".tar.gz"@.len())
    } else if has_suffix(f, ".tar"@) {
        f.subrange(0, f.len() - ".tar"@.len())
    } else {
        f
    }
}

/// Name and requirement of a `name@req` specifier (scoped or not).
pub open spec fn name_and_req(t: Seq<char>) -> (Seq<char>, Seq<char>) {
    if has_prefix(t, "@"@) {
        let s = after(t, "@"@.len() as int);
        match find_seq(s, seq!['@']) {
            Some(i) => ("@"@ + s.subrange(0, i), after(s, i + 1)),
            None => ("@"@ + s, "latest"@),
        }
    } else {
        match find_seq(t, seq!['@']) {
            Some(i) => (t.subrange(0, i), after(t, i + 1)),
            None => (t, "latest"@),
        }
    }
}

/// The requirement that `parse_package_spec` reports, for a non-empty specifier.
pub open spec fn package_spec_req(spec: Seq<char>) -> Seq<char> {
    let t = trim(spec);
    if has_prefix(t, "file:"@) {
        t
    } else if spec_is_git(t) || spec_is_tarball(t) {
        t
    } else {
        name_and_req(t).1
    }
}

/// The name that `parse_package_spec` reports for a non-empty, non-`file:` specifier.
pub open spec fn package_spec_name(spec: Seq<char>) -> Seq<char> {
    let t = trim(spec);
    if spec_is_git(t) {
        git_repo_name(t)
    } else if spec_is_tarball(t) {
        tarball_pkg_name(t)
    } else {
        name_and_req(t).0
    }
}

/// A simple path component: one that every platform's path parser takes as a file name.
pub open spec fn is_plain_file_name(p: Seq<char>) -> bool {
    &&& p.len() > 0
    &&& !p.contains('/')
    &&& !p.contains('\\')
    &&& !p.contains(':')
    &&& p != "."@
    &&& p != ".."@
}

/// The file name of a path that every platform splits the same way: one with
/// no `\` and no `:`, not starting with `//`, whose part after the last `/`
/// is a plain name (`../pkg` gives `pkg`).
pub open spec fn slash_path_name(p: Seq<char>) -> Option<Seq<char>> {
    if p.contains('/') && !p.contains('\\') && !p.contains(':') && !has_prefix(p, "//"@)
        && is_plain_file_name(after_last_slash(p)) {
        Some(after_last_slash(p))
    } else {
        None
    }
}

/// The final component of a path, as `Path::file_name` gives it
/// (`std::path::Path::file_name`, lossily converted to UTF-8).
/// Only what holds on every platform is stated: an empty path has no file name,
/// a plain name is its own file name, and so is the plain last part of a
/// `/`-separated path without `\`, `:` or a leading `//` (see
/// `slash_path_name`). How `\`, drive and UNC prefixes, and trailing `.` and
/// `..` are read is platform-specific and is left unsaid.
#[verifier::external_body]
fn path_file_name(p: &str) -> (r: Option<String>)
    ensures
        p@.len() == 0 ==> r.is_none(),
        is_plain_file_name(p@) ==> (r.is_some() && r.unwrap()@ == p@),
        (slash_path_name(p@) matches Some(q) ==> r.is_some() && r.unwrap()@ == q),
{
    std::path::Path::new(p).file_name().map(|n| n.to_string_lossy().to_string())
}

fn lit(s: &str) -> (v: Vec<char>)
    ensures
        v@ == s@,
{
    chars_of(s)
}

fn is_git_chars(s: &Vec<char>) -> (r: bool)
    ensures
        r == spec_is_git(s@),
{
    let t = trim_chars(s);
    if starts_with(&t, &lit("git+")) || starts_with(&t, &lit("git://")) || starts_with(
        &t,
        &lit("git@"),
    ) || starts_with(&t, &lit("github:")) || starts_with(&t, &lit("gitlab:")) || starts_with(
        &t,
        &lit("bitbucket:"),
    ) {
        return true;
    }
    let ends_git = ends_with(&t, &lit(".git")) || contains(&t, &lit(".git#"));
    (starts_with(&t, &lit("https://")) && ends_git) || (starts_with(&t, &lit("http://"))
        && ends_git)
}

fn is_tarball_chars(s: &Vec<char>) -> (r: bool)
    ensures
        r == spec_is_tarball(s@),
{
    let t = trim_chars(s);
    if is_git_chars(&t) {
        return false;
    }
    (starts_with(&t, &lit("https://")) || starts_with(&t, &lit("http://"))) && (ends_with(
        &t,
        &lit(".tgz"),
    ) || ends_with(&t, &lit(".tar.gz")) || ends_with(&t, &lit(".tar")) || contains(
        &t,
        &lit(".tgz?"),
    ) || contains(&t, &lit(".tar.gz?")))
}

/// Detects if a specifier is a Git URL or shorthand (e.g. github:user/repo, git+https://..., git://...)
pub fn is_git_specifier(req: &str) -> (r: bool)
    ensures
        r == spec_is_git(req@),
{
    is_git_chars(&chars_of(req))
}

/// Detects if a specifier is a direct tarball URL (e.g. https://.../pkg.tgz or http://.../pkg.tar.gz)
pub fn is_tarball_url_specifier(req: &str) -> (r: bool)
    ensures
        r == spec_is_tarball(req@),
{
    is_tarball_chars(&chars_of(req))
}

fn after_chars(s: &Vec<char>, n: usize) -> (r: Vec<char>)
    requires
        n <= s@.len(),
    ensures
        r@ == after(s@, n as int),
{
    slice_of(s, n, s.len())
}

fn join3(a: &str, b: &Vec<char>, c: &str) -> (r: Vec<char>)
    ensures
        r@ == a@ + b@ + c@,
{
    let x = concat(&lit(a), b);
    concat(&x, &lit(c))
}

fn git_parts(spec: &Vec<char>) -> (r: (Vec<char>, Option<Vec<char>>))
    ensures
        r.0@ == git_clone_url(spec@),
        match r.1 {
            Some(c) => git_committish(spec@) == Some(c@),
            None => git_committish(spec@) is None,
        },
{
    let t = trim_chars(spec);
    let n = t.len();
    let (u, committish) = match find_char(&t, '#') {
        Some(i) => (slice_of(&t, 0, i), Some(after_chars(&t, i + 1))),
        None => (t, None),
    };
    assert(u@ == git_url_part(spec@));
    let url = if let Some(rest) = strip_prefix(&u, &lit("github:")) {
        join3("https://github.com/", &rest, ".git")
    } else if let Some(rest) = strip_prefix(&u, &lit("gitlab:")) {
        join3("https://gitlab.com/", &rest, ".git")
    } else if let Some(rest) = strip_prefix(&u, &lit("bitbucket:")) {
        join3("https://bitbucket.org/", &rest, ".git")
    } else if let Some(rest) = strip_prefix(&u, &lit("git+ssh://")) {
        concat(&lit("ssh://"), &rest)
    } else if let Some(rest) = strip_prefix(&u, &lit("git+https://")) {
        concat(&lit("https://"), &rest)
    } else if let Some(rest) = strip_prefix(&u, &lit("git+http://")) {
        concat(&lit("http://"), &rest)
    } else if let Some(rest) = strip_prefix(&u, &lit("git+file://")) {
        concat(&lit("file://"), &rest)
    } else {
        u
    };
    (url, committish)
}

/// Normalizes a Git specifier into a cloneable URL and optional git committish/branch/tag ref
pub fn normalize_git_url(spec: &str) -> (r: (String, Option<String>))
    ensures
        r.0@ == git_clone_url(spec@),
        match r.1 {
            Some(c) => git_committish(spec@) == Some(c@),
            None => git_committish(spec@) is None,
        },
{
    let (url, c) = git_parts(&chars_of(spec));
    let committish = match c {
        Some(v) => Some(string_of(v)),
        None => None,
    };
    (string_of(url), committish)
}

fn after_last_slash_chars(s: &Vec<char>) -> (r: Vec<char>)
    ensures
        r@ == after_last_slash(s@),
{
    let n = s.len();
    match rfind(s, '/') {
        Some(i) => after_chars(s, i + 1),
        None => slice_of(s, 0, s.len()),
    }
}

fn name_and_req_chars(t: &Vec<char>) -> (r: (Vec<char>, Vec<char>))
    ensures
        r.0@ == name_and_req(t@).0,
        r.1@ == name_and_req(t@).1,
{
    let n = t.len();
    if let Some(s) = strip_prefix(t, &lit("@")) {
        let m = s.len();
        match find_char(&s, '@') {
            Some(i) => (concat(&lit("@"), &slice_of(&s, 0, i)), after_chars(&s, i + 1)),
            None => (concat(&lit("@"), &s), lit("latest")),
        }
    } else {
        match find_char(t, '@') {
            Some(i) => (slice_of(t, 0, i), after_chars(t, i + 1)),
            None => (slice_of(t, 0, t.len()), lit("latest")),
        }
    }
}

fn tarball_name_chars(t: &Vec<char>) -> (r: Vec<char>)
    ensures
        r@ == tarball_pkg_name(t@),
{
    let path = match find_char(t, '?') {
        Some(i) => slice_of(t, 0, i),
        None => slice_of(t, 0, t.len()),
    };
    assert(t@.subrange(0, t@.len() as int) =~= t@);
    let f = after_last_slash_chars(&path);
    match strip_suffix(&f, &lit(".tgz")) {
        Some(x) => x,
        None => match strip_suffix(&f, &lit(".tar.gz")) {
            Some(x) => x,
            None => match strip_suffix(&f, &lit(".tar")) {
                Some(x) => x,
                None => f,
            },
        },
    }
}

fn git_repo_name_chars(t: &Vec<char>) -> (r: Vec<char>)
    ensures
        r@ == git_repo_name(t@),
{
    let (u, _) = git_parts(t);
    let trimmed = trim_end_matches_char(&u, '/');
    let base = match strip_suffix(&trimmed, &lit(".git")) {
        Some(x) => x,
        None => u,
    };
    after_last_slash_chars(&base)
}

/// Parse a CLI package specifier like `express`, `lodash@^4.17.21`, `@types/node@latest`,
/// `@scope/pkg@1.0.0`, `file:../pkg`.
pub fn parse_package_spec(spec: &str) -> (r: Result<(String, String), SpecError>)
    ensures
        trim(spec@).len() == 0 <==> r is Err,
        r matches Ok((name, req)) ==> {
            &&& req@ == package_spec_req(spec@)
            &&& !has_prefix(trim(spec@), "file:"@) ==> name@ == package_spec_name(spec@)
            &&& has_prefix(trim(spec@), "file:"@) && is_plain_file_name(after(trim(spec@), "file:"@.len() as int))
                ==> name@ == after(trim(spec@), "file:"@.len() as int)
            &&& has_prefix(trim(spec@), "file:"@) && after(trim(spec@), "file:"@.len() as int).len() == 0
                ==> name@ == "local-pkg"@
            &&& has_prefix(trim(spec@), "file:"@) ==> (slash_path_name(after(trim(spec@), "file:"@.len() as int))
                matches Some(q) ==> name@ == q)
        },
{
    let (n, q) = match parse_spec_chars(&chars_of(spec)) {
        Ok(p) => p,
        Err(e) => {
            return Err(e);
        },
    };
    Ok((n, string_of(q)))
}

fn parse_spec_chars(s: &Vec<char>) -> (r: Result<(String, Vec<char>), SpecError>)
    ensures
        trim(s@).len() == 0 <==> r is Err,
        r matches Ok((name, req)) ==> {
            &&& req@ == package_spec_req(s@)
            &&& !has_prefix(trim(s@), "file:"@) ==> name@ == package_spec_name(s@)
            &&& has_prefix(trim(s@), "file:"@) && is_plain_file_name(after(trim(s@), "file:"@.len() as int))
                ==> name@ == after(trim(s@), "file:"@.len() as int)
            &&& has_prefix(trim(s@), "file:"@) && after(trim(s@), "file:"@.len() as int).len() == 0 ==> name@
                == "local-pkg"@
            &&& has_prefix(trim(s@), "file:"@) ==> (slash_path_name(after(trim(s@), "file:"@.len() as int))
                matches Some(q) ==> name@ == q)
        },
{
    let t = trim_chars(s);
    if t.len() == 0 {
        return Err(SpecError::EmptySpecifier);
    }
    if let Some(stripped) = strip_prefix(&t, &lit("file:")) {
        let path = string_of(slice_of(&stripped, 0, stripped.len()));
        assert(path@ =~= stripped@);
        let name = match path_file_name(path.as_str()) {
            Some(n) => n,
            None => string_of(lit("local-pkg")),
        };
        proof {
            assert(stripped@ == after(t@, "file:"@.len() as int));
            assert(t@ =~= "file:"@ + stripped@);
        }
        return Ok((name, concat(&lit("file:"), &stripped)));
    }
    if is_git_chars(&t) {
        return Ok((string_of(git_repo_name_chars(&t)), t));
    }
    if is_tarball_chars(&t) {
        return Ok((string_of(tarball_name_chars(&t)), t));
    }
    let (n, q) = name_and_req_chars(&t);
    Ok((string_of(n), q))
}

/// The catalog that a `catalog:` requirement names (`default` for a bare `catalog:`).
pub open spec fn catalog_name(t: Seq<char>) -> Option<Seq<char>> {
    if t == "catalog:"@ || t == "catalog:default"@ {
        Some("default"@)
    } else if has_prefix(t, "catalog:"@) {
        Some(trim(after(t, "catalog:"@.len() as int)))
    } else {
        None
    }
}

/// The requirement after a catalog reference has been replaced by the catalog's entry.
pub open spec fn effective_req(
    dep: Seq<char>,
    req: Seq<char>,
    cats: Option<Seq<(String, StrMap<String>)>>,
) -> Seq<char> {
    let t = trim(req);
    match (catalog_name(t), cats) {
        (Some(n), Some(c)) => match lookup(c, n) {
            Some(m) => match lookup(m@, dep) {
                Some(v) => v@,
                None => t,
            },
            None => t,
        },
        _ => t,
    }
}

/// `r` is the dependency that the (catalog-resolved) requirement `e` for key `dep` describes.
pub open spec fn describes(r: DependencySpec, dep: Seq<char>, e: Seq<char>) -> bool {
    if has_prefix(e, "file:"@) {
        &&& r.registry_name@ == dep
        &&& r.version_req@ == after(e, "file:"@.len() as int)
        &&& r.alias_name is None
        &&& r.is_local_file && !r.is_git && !r.is_tarball_url
    } else if has_prefix(e, "npm:"@) {
        let st = after(e, "npm:"@.len() as int);
        &&& r.alias_name matches Some(a) && a@ == dep
        &&& !r.is_local_file && !r.is_git && !r.is_tarball_url
        &&& if trim(st).len() == 0 {
            r.registry_name@ == st && r.version_req@ == "latest"@
        } else {
            &&& r.version_req@ == package_spec_req(st)
            &&& !has_prefix(trim(st), "file:"@) ==> r.registry_name@ == package_spec_name(st)
        }
    } else if spec_is_git(e) {
        &&& r.registry_name@ == dep
        &&& r.version_req@ == e
        &&& r.alias_name is None
        &&& !r.is_local_file && r.is_git && !r.is_tarball_url
    } else if spec_is_tarball(e) {
        &&& r.registry_name@ == dep
        &&& r.version_req@ == e
        &&& r.alias_name is None
        &&& !r.is_local_file && !r.is_git && r.is_tarball_url
    } else {
        &&& r.registry_name@ == dep
        &&& r.version_req@ == e
        &&& r.alias_name is None
        &&& !r.is_local_file && !r.is_git && !r.is_tarball_url
    }
}

pub open spec fn catalogs_view(c: Option<&StrMap<StrMap<String>>>) -> Option<
    Seq<(String, StrMap<String>)>,
> {
    match c {
        Some(m) => Some(m@),
        None => None,
    }
}

/// Parse a dependency requirement in `package.json` for a given dependency key `dep_name`.
/// Supports:
/// - Standard: `dep_name: "^1.0.0"` -> registry_name = `dep_name`, version_req = `"^1.0.0"`
/// - Local file: `dep_name: "file:../local-pkg"` -> is_local_file = true
/// - npm alias: `my-alias: "npm:real-pkg@^2.0.0"` -> registry_name = `"real-pkg"`, version_req = `"^2.0.0"`
/// - Git: `dep_name: "github:user/repo"` or `"git+https://..."` or `"git://..."` -> is_git = true
/// - Tarball URL: `dep_name: "https://example.com/pkg.tgz"` -> is_tarball_url = true
pub fn parse_dependency_req(dep_name: &str, req: &str) -> (r: DependencySpec)
    ensures
        describes(r, dep_name@, trim(req@)),
{
    parse_dependency_req_with_catalogs(dep_name, req, None)
}

/// `parse_dependency_req`, first replacing a `catalog:` requirement by the
/// catalog's entry for `dep_name` when there is one.
pub fn parse_dependency_req_with_catalogs(
    dep_name: &str,
    req: &str,
    catalogs: Option<&StrMap<StrMap<String>>>,
) -> (r: DependencySpec)
    ensures
        describes(r, dep_name@, effective_req(dep_name@, req@, catalogs_view(catalogs))),
{
    let dep = chars_of(dep_name);
    let t = trim_chars(&chars_of(req));
    let cat_name: Option<Vec<char>> = if chars_eq(&t, &lit("catalog:")) || chars_eq(
        &t,
        &lit("catalog:default"),
    ) {
        Some(lit("default"))
    } else {
        match strip_prefix(&t, &lit("catalog:")) {
            Some(rest) => Some(trim_chars(&rest)),
            None => None,
        }
    };
    let mut e = slice_of(&t, 0, t.len());
    assert(e@ =~= t@);
    if let Some(n) = cat_name {
        if let Some(cats) = catalogs {
            if let Some(m) = cats.get(&n) {
                if let Some(v) = m.get(&dep) {
                    e = chars_of(v.as_str());
                }
            }
        }
    }
    assert(e@ == effective_req(dep_name@, req@, catalogs_view(catalogs)));
    if let Some(stripped) = strip_prefix(&e, &lit("file:")) {
        DependencySpec {
            registry_name: string_of(dep),
            version_req: string_of(stripped),
            alias_name: None,
            is_local_file: true,
            is_git: false,
            is_tarball_url: false,
        }
    } else if let Some(stripped) = strip_prefix(&e, &lit("npm:")) {
        let (real_pkg, real_req) = match parse_spec_chars(&stripped) {
            Ok((p, q)) => (p, string_of(q)),
            Err(_) => (string_of(stripped), string_of(lit("latest"))),
        };
        DependencySpec {
            registry_name: real_pkg,
            version_req: real_req,
            alias_name: Some(string_of(dep)),
            is_local_file: false,
            is_git: false,
            is_tarball_url: false,
        }
    } else if is_git_chars(&e) {
        DependencySpec {
            registry_name: string_of(dep),
            version_req: string_of(e),
            alias_name: None,
            is_local_file: false,
            is_git: true,
            is_tarball_url: false,
        }
    } else if is_tarball_chars(&e) {
        DependencySpec {
            registry_name: string_of(dep),
            version_req: string_of(e),
            alias_name: None,
            is_local_file: false,
            is_git: false,
            is_tarball_url: true,
        }
    } else {
        DependencySpec {
            registry_name: string_of(dep),
            version_req: string_of(e),
            alias_name: None,
            is_local_file: false,
            is_git: false,
            is_tarball_url: false,
        }
    }
}

#[verifier::external_type_specification]
#[verifier::external_body]
pub struct ExRange(node_semver::Range);

/// Whether `node_semver::Range::parse` accepts the text.
pub uninterp spec fn range_parses(text: Seq<char>) -> bool;

/// Whether the range parsed from `text` is satisfied by `version`
/// (`node_semver::Range::satisfies`).
pub uninterp spec fn range_admits(text: Seq<char>, version: VersionView) -> bool;

/// The version that `node_semver::Version::parse` reads from the text, if it accepts it.
pub uninterp spec fn version_parse(text: Seq<char>) -> Option<VersionView>;

/// A range together with the text it was parsed from.
pub struct ParsedRange {
    text: String,
    range: node_semver::Range,
}

impl ParsedRange {
    pub closed spec fn source(&self) -> Seq<char> {
        self.text@
    }
}

/// `node_semver::Range::parse`: whether the text is a range, and the parsed
/// range paired with the text it came from.
#[verifier::external_body]
fn parse_range(text: &str) -> (r: Option<ParsedRange>)
    ensures
        r.is_some() == range_parses(text@),
        r.is_some() ==> r.unwrap().source() == text@,
{
    match node_semver::Range::parse(text) {
        Ok(range) => Some(ParsedRange { text: text.to_string(), range }),
        Err(_) => None,
    }
}

/// `node_semver::Version::parse`, its result converted field by field.
#[verifier::external_body]
pub(crate) fn parse_version(text: &str) -> (r: Option<SemVersion>)
    ensures
        r.is_some() == version_parse(text@).is_some(),
        r.is_some() ==> version_parse(text@) == Some(r.unwrap()@),
{
    let conv = |i: node_semver::Identifier| match i {
        node_semver::Identifier::Numeric(n) => SemIdent::Numeric(n),
        node_semver::Identifier::AlphaNumeric(s) => SemIdent::AlphaNumeric(s),
    };
    match node_semver::Version::parse(text) {
        Ok(v) => Some(SemVersion {
            major: v.major,
            minor: v.minor,
            patch: v.patch,
            build: v.build.into_iter().map(conv).collect(),
            pre_release: v.pre_release.into_iter().map(conv).collect(),
        }),
        Err(_) => None,
    }
}

/// `node_semver::Range::satisfies`, the version converted field by field.
/// The claim rests on `p` having been made by `parse_range`, the only place a
/// `ParsedRange` is built, so that `p.range` is what its text parses to.
#[verifier::external_body]
fn range_satisfied(p: &ParsedRange, v: &SemVersion) -> (b: bool)
    ensures
        b == range_admits(p.source(), v@),
{
    let conv = |i: &SemIdent| match i {
        SemIdent::Numeric(n) => node_semver::Identifier::Numeric(*n),
        SemIdent::AlphaNumeric(s) => node_semver::Identifier::AlphaNumeric(s.clone()),
    };
    let ver = node_semver::Version {
        major: v.major,
        minor: v.minor,
        patch: v.patch,
        build: v.build.iter().map(conv).collect(),
        pre_release: v.pre_release.iter().map(conv).collect(),
    };
    p.range.satisfies(&ver)
}

pub open spec fn is_comparator_op(w: Seq<char>) -> bool {
    w == ">"@ || w == ">="@ || w == "<"@ || w == "<="@ || w == "="@
}

pub open spec fn hyphen_text(a: Seq<char>, b: Seq<char>) -> Seq<char> {
    a + " - "@ + b
}

pub open spec fn prepend<T>(x: T, r: Option<Seq<T>>) -> Option<Seq<T>> {
    match r {
        Some(l) => Some(seq![x] + l),
        None => None,
    }
}

/// Reads the space-separated comparators `w[i..]` of one `||` alternative:
/// `a - b` hyphen ranges, an operator followed by its version, or a range
/// word; `None` when some word cannot be read.
pub open spec fn and_scan(w: Seq<Seq<char>>, i: int) -> Option<Seq<Seq<char>>>
    decreases w.len() - i,
{
    if i < 0 || i >= w.len() {
        Some(Seq::<Seq<char>>::empty())
    } else if w[i] == "-"@ {
        None
    } else if i + 2 < w.len() && w[i + 1] == "-"@ && range_parses(hyphen_text(w[i], w[i + 2])) {
        prepend(hyphen_text(w[i], w[i + 2]), and_scan(w, i + 3))
    } else if is_comparator_op(w[i]) && i + 1 < w.len() && range_parses(w[i] + w[i + 1]) {
        prepend(w[i] + w[i + 1], and_scan(w, i + 2))
    } else if range_parses(w[i]) {
        prepend(w[i], and_scan(w, i + 1))
    } else {
        None
    }
}

/// Reads the `||` alternatives in order; `None` as soon as one cannot be read.
pub open spec fn or_scan(parts: Seq<Seq<char>>) -> Option<Seq<Seq<Seq<char>>>>
    decreases parts.len(),
{
    if parts.len() == 0 {
        Some(Seq::<Seq<Seq<char>>>::empty())
    } else {
        let p = trim(parts[0]);
        let rest = or_scan(parts.drop_first());
        if p.len() == 0 {
            rest
        } else if range_parses(p) {
            prepend(seq![p], rest)
        } else {
            match and_scan(ws_tokens(p), 0) {
                Some(a) => if a.len() > 0 {
                    prepend(a, rest)
                } else {
                    None
                },
                None => None,
            }
        }
    }
}

/// The range texts that a requirement stands for: alternatives (any may
/// hold), each a list of ranges (all must hold). `None` for `*`, `latest`,
/// the empty requirement, or text that cannot be read as ranges.
pub open spec fn complex_range(input: Seq<char>) -> Option<Seq<Seq<Seq<char>>>> {
    if input == "*"@ || input == "latest"@ || input.len() == 0 {
        None
    } else if range_parses(input) {
        Some(seq![seq![input]])
    } else {
        match or_scan(split_all(input, "||"@)) {
            Some(sets) => if sets.len() > 0 {
                Some(sets)
            } else {
                None
            },
            None => None,
        }
    }
}

pub open spec fn group_sources(g: Vec<ParsedRange>) -> Seq<Seq<char>> {
    g@.map_values(|p: ParsedRange| p.source())
}

pub open spec fn sets_sources(v: Seq<Vec<ParsedRange>>) -> Seq<Seq<Seq<char>>> {
    v.map_values(|g: Vec<ParsedRange>| group_sources(g))
}

fn parse_range_chars(t: &Vec<char>) -> (r: Option<ParsedRange>)
    ensures
        r.is_some() == range_parses(t@),
        r.is_some() ==> r.unwrap().source() == t@,
{
    let s = string_of(slice_of(t, 0, t.len()));
    assert(s@ =~= t@);
    parse_range(s.as_str())
}

fn and_ranges(w: &Vec<Vec<char>>) -> (r: Option<Vec<ParsedRange>>)
    ensures
        match r {
            Some(g) => and_scan(w@.map_values(|v: Vec<char>| v@), 0) == Some(group_sources(g)),
            None => and_scan(w@.map_values(|v: Vec<char>| v@), 0) is None,
        },
{
    let ghost ws = w@.map_values(|v: Vec<char>| v@);
    let mut acc: Vec<ParsedRange> = Vec::new();
    let mut i: usize = 0;
    let n = w.len();
    let dash = lit("-");
    while i < n
        invariant
            n == w@.len(),
            ws == w@.map_values(|v: Vec<char>| v@),
            dash@ == "-"@,
            i <= n + 2,
            and_scan(ws, 0) == match and_scan(ws, i as int) {
                Some(l) => Some(group_sources(acc) + l),
                None => None::<Seq<Seq<char>>>,
            },
        decreases n - i,
    {
        assert(ws[i as int] == w@[i as int]@);
        if chars_eq(&w[i], &dash) {
            return None;
        }
        if n - i > 2 && chars_eq(&w[i + 1], &dash) {
            assert(ws[i + 1] == w@[i + 1]@);
            assert(ws[i + 2] == w@[i + 2]@);
            let text = join3_chars(&w[i], " - ", &w[i + 2]);
            if let Some(p) = parse_range_chars(&text) {
                let ghost before = group_sources(acc);
                acc.push(p);
                assert(group_sources(acc) =~= before.push(p.source()));
                proof {
                    let rest = and_scan(ws, i + 3);
                    if let Some(l) = rest {
                        assert(before.push(p.source()) + l =~= before + (seq![p.source()] + l));
                    }
                }
                i = i + 3;
                continue;
            }
        }
        if i + 1 < n {
            let op = &w[i];
            let is_op = chars_eq(op, &lit(">")) || chars_eq(op, &lit(">=")) || chars_eq(
                op,
                &lit("<"),
            ) || chars_eq(op, &lit("<=")) || chars_eq(op, &lit("="));
            if is_op {
                assert(ws[i + 1] == w@[i + 1]@);
                let text = concat(&w[i], &w[i + 1]);
                if let Some(p) = parse_range_chars(&text) {
                    let ghost before = group_sources(acc);
                    acc.push(p);
                    assert(group_sources(acc) =~= before.push(p.source()));
                    proof {
                        let rest = and_scan(ws, i + 2);
                        if let Some(l) = rest {
                            assert(before.push(p.source()) + l =~= before + (seq![p.source()]
                                + l));
                        }
                    }
                    i = i + 2;
                    continue;
                }
            }
        }
        match parse_range_chars(&w[i]) {
            Some(p) => {
                let ghost before = group_sources(acc);
                acc.push(p);
                assert(group_sources(acc) =~= before.push(p.source()));
                proof {
                    let rest = and_scan(ws, i + 1);
                    if let Some(l) = rest {
                        assert(before.push(p.source()) + l =~= before + (seq![p.source()] + l));
                    }
                }
                i = i + 1;
            },
            None => {
                return None;
            },
        }
    }
    assert(group_sources(acc) + Seq::<Seq<char>>::empty() =~= group_sources(acc));
    Some(acc)
}

fn join3_chars(a: &Vec<char>, mid: &str, b: &Vec<char>) -> (r: Vec<char>)
    ensures
        r@ == a@ + mid@ + b@,
{
    let x = concat(a, &lit(mid));
    concat(&x, b)
}

fn parse_complex_range(input: &Vec<char>) -> (r: Option<Vec<Vec<ParsedRange>>>)
    ensures
        match r {
            Some(v) => complex_range(input@) == Some(sets_sources(v@)),
            None => complex_range(input@) is None,
        },
{
    if chars_eq(input, &lit("*")) || chars_eq(input, &lit("latest")) || input.len() == 0 {
        return None;
    }
    if let Some(single) = parse_range_chars(input) {
        let mut g: Vec<ParsedRange> = Vec::new();
        g.push(single);
        let mut v: Vec<Vec<ParsedRange>> = Vec::new();
        v.push(g);
        assert(sets_sources(v@) =~= seq![seq![input@]]) by {
            assert(group_sources(v@[0]) =~= seq![input@]);
        }
        return Some(v);
    }
    let sep = lit("||");
    proof {
        reveal_strlit("||");
    }
    let parts = split_pieces(input, &sep);
    let ghost ps = parts@.map_values(|v: Vec<char>| v@);
    let mut sets: Vec<Vec<ParsedRange>> = Vec::new();
    let mut k: usize = 0;
    let n = parts.len();
    assert(ps.subrange(0, n as int) =~= ps);
    while k < n
        invariant
            n == parts@.len(),
            ps == parts@.map_values(|v: Vec<char>| v@),
            ps == split_all(input@, "||"@),
            !(input@ == "*"@ || input@ == "latest"@ || input@.len() == 0),
            !range_parses(input@),
            k <= n,
            or_scan(ps) == match or_scan(ps.subrange(k as int, n as int)) {
                Some(l) => Some(sets_sources(sets@) + l),
                None => None::<Seq<Seq<Seq<char>>>>,
            },
        decreases n - k,
    {
        let ghost rest_parts = ps.subrange(k as int, n as int);
        assert(rest_parts[0] == parts@[k as int]@);
        assert(rest_parts.drop_first() =~= ps.subrange(k + 1, n as int));
        let part = trim_chars(&parts[k]);
        if part.len() == 0 {
            k = k + 1;
            continue;
        }
        let group: Vec<ParsedRange> = match parse_range_chars(&part) {
            Some(p) => {
                let mut g: Vec<ParsedRange> = Vec::new();
                g.push(p);
                assert(group_sources(g) =~= seq![part@]);
                g
            },
            None => {
                let words = split_whitespace_tokens(&part);
                match and_ranges(&words) {
                    Some(g) => {
                        if g.len() == 0 {
                            return None;
                        }
                        g
                    },
                    None => {
                        return None;
                    },
                }
            },
        };
        let ghost before = sets_sources(sets@);
        sets.push(group);
        assert(sets_sources(sets@) =~= before.push(group_sources(group)));
        proof {
            if let Some(l) = or_scan(ps.subrange(k + 1, n as int)) {
                assert(before.push(group_sources(group)) + l =~= before + (seq![
                    group_sources(group),
                ] + l));
            }
        }
        k = k + 1;
    }
    assert(ps.subrange(n as int, n as int) =~= Seq::<Seq<char>>::empty());
    assert(sets_sources(sets@) + Seq::<Seq<Seq<char>>>::empty() =~= sets_sources(sets@));
    if sets.len() == 0 {
        None
    } else {
        Some(sets)
    }
}

/// Wrapper around npm semver comparison and range matching
pub struct SemverSpec {
    pub raw: String,
    pub parsed_sets: Option<Vec<Vec<ParsedRange>>>,
}

/// Every range of the group is satisfied by the version.
pub open spec fn group_admits(group: Seq<Seq<char>>, ver: VersionView) -> bool {
    forall|j: int| 0 <= j < group.len() ==> range_admits(#[trigger] group[j], ver)
}

/// Some alternative of the range sets is satisfied by the version.
pub open spec fn sets_admit(sets: Seq<Seq<Seq<char>>>, ver: VersionView) -> bool {
    exists|i: int| 0 <= i < sets.len() && #[trigger] group_admits(sets[i], ver)
}

/// The requirement text itself parses as a version of the same precedence.
pub open spec fn same_as_exact(t: Seq<char>, ver: VersionView) -> bool {
    match version_parse(t) {
        Some(rv) => precedence(ver, rv) == Order::Equal,
        None => false,
    }
}

/// Whether a version text matches a requirement, given the requirement's range texts.
pub open spec fn spec_matches(
    raw: Seq<char>,
    sets: Option<Seq<Seq<Seq<char>>>>,
    version: Seq<char>,
) -> bool {
    let t = trim(raw);
    if t == "*"@ || t == "latest"@ || t.len() == 0 {
        true
    } else if t == version {
        true
    } else {
        match version_parse(version) {
            None => false,
            Some(ver) => same_as_exact(t, ver) || (sets matches Some(ss) && sets_admit(ss, ver)),
        }
    }
}

pub open spec fn parsed(v: Seq<char>) -> VersionView {
    version_parse(v)->0
}

/// `versions[i]` parses and satisfies the requirement.
pub open spec fn is_candidate(
    raw: Seq<char>,
    sets: Option<Seq<Seq<Seq<char>>>>,
    versions: Seq<&str>,
    i: int,
) -> bool {
    0 <= i < versions.len() && version_parse(versions[i]@) is Some && spec_matches(
        raw,
        sets,
        versions[i]@,
    )
}

/// A candidate without pre-release or build identifiers.
pub open spec fn is_stable_candidate(
    raw: Seq<char>,
    sets: Option<Seq<Seq<Seq<char>>>>,
    versions: Seq<&str>,
    i: int,
) -> bool {
    is_candidate(raw, sets, versions, i) && parsed(versions[i]@).pre.len() == 0 && parsed(
        versions[i]@,
    ).build.len() == 0
}

/// `i` is the highest of the positions satisfying `ok`, the first of them among equals.
pub open spec fn is_best(versions: Seq<&str>, ok: spec_fn(int) -> bool, i: int) -> bool {
    &&& ok(i)
    &&& forall|j: int|
        #![trigger ok(j)]
        ok(j) ==> precedence(parsed(versions[j]@), parsed(versions[i]@)) != Order::Greater
    &&& forall|j: int|
        #![trigger ok(j)]
        ok(j) && j < i ==> precedence(parsed(versions[j]@), parsed(versions[i]@)) == Order::Less
}

/// The positions of the versions that satisfy the requirement.
pub open spec fn candidates(
    raw: Seq<char>,
    sets: Option<Seq<Seq<Seq<char>>>>,
    versions: Seq<&str>,
) -> spec_fn(int) -> bool {
    |j: int| is_candidate(raw, sets, versions, j)
}

/// The positions of the stable versions that satisfy the requirement.
pub open spec fn stable_candidates(
    raw: Seq<char>,
    sets: Option<Seq<Seq<Seq<char>>>>,
    versions: Seq<&str>,
) -> spec_fn(int) -> bool {
    |j: int| is_stable_candidate(raw, sets, versions, j)
}

/// `versions[i]` is the one to pick: the best stable candidate when the
/// requirement names no pre-release and a stable candidate exists, else the
/// best candidate.
pub open spec fn best_choice(
    raw: Seq<char>,
    sets: Option<Seq<Seq<Seq<char>>>>,
    versions: Seq<&str>,
    i: int,
) -> bool {
    if !trim(raw).contains('-') && (exists|j: int|
        #[trigger] is_stable_candidate(raw, sets, versions, j)) {
        is_best(versions, stable_candidates(raw, sets, versions), i)
    } else {
        is_best(versions, candidates(raw, sets, versions), i)
    }
}

impl SemverSpec {
    /// The range texts the requirement was read into.
    pub open spec fn range_sets(&self) -> Option<Seq<Seq<Seq<char>>>> {
        match self.parsed_sets {
            Some(v) => Some(sets_sources(v@)),
            None => None,
        }
    }

    pub fn new(raw: &str) -> (r: Self)
        ensures
            r.raw@ == trim(raw@),
            r.range_sets() == complex_range(trim(raw@)),
    {
        let trimmed = trim_chars(&chars_of(raw));
        let parsed_sets = parse_complex_range(&trimmed);
        SemverSpec { raw: string_of(trimmed), parsed_sets }
    }

    fn all_admit(group: &Vec<ParsedRange>, ver: &SemVersion) -> (r: bool)
        ensures
            r == group_admits(group_sources(*group), ver@),
    {
        let mut j: usize = 0;
        while j < group.len()
            invariant
                j <= group@.len(),
                forall|k: int|
                    0 <= k < j ==> range_admits(#[trigger] group_sources(*group)[k], ver@),
            decreases group@.len() - j,
        {
            assert(group_sources(*group)[j as int] == group@[j as int].source());
            if !range_satisfied(&group[j], ver) {
                return false;
            }
            j = j + 1;
        }
        true
    }

    /// Check if a version matches this range / tag / specifier
    pub fn matches(&self, version_str: &str) -> (r: bool)
        ensures
            r == spec_matches(self.raw@, self.range_sets(), version_str@),
    {
        let t = trim_chars(&chars_of(self.raw.as_str()));
        if chars_eq(&t, &lit("*")) || chars_eq(&t, &lit("latest")) || t.len() == 0 {
            return true;
        }
        let v = chars_of(version_str);
        if chars_eq(&t, &v) {
            return true;
        }
        let ver = match parse_version(version_str) {
            Some(x) => x,
            None => {
                return false;
            },
        };
        let ts = string_of(slice_of(&t, 0, t.len()));
        assert(ts@ =~= t@);
        if let Some(raw_ver) = parse_version(ts.as_str()) {
            match compare_versions(&ver, &raw_ver) {
                Order::Equal => {
                    return true;
                },
                _ => {},
            }
        }
        match &self.parsed_sets {
            Some(sets) => {
                let mut i: usize = 0;
                while i < sets.len()
                    invariant
                        i <= sets@.len(),
                        self.parsed_sets == Some(*sets),
                        version_parse(version_str@) == Some(ver@),
                        t@ == trim(self.raw@),
                        !(t@ == "*"@ || t@ == "latest"@ || t@.len() == 0),
                        t@ != version_str@,
                        forall|k: int|
                            0 <= k < i ==> !#[trigger] group_admits(sets_sources(sets@)[k], ver@),
                    decreases sets@.len() - i,
                {
                    assert(sets_sources(sets@)[i as int] == group_sources(sets@[i as int]));
                    if Self::all_admit(&sets[i], &ver) {
                        proof {
                            let ss = sets_sources(sets@);
                            assert(ss.len() == sets@.len());
                            assert(self.range_sets() == Some(ss));
                            assert(group_admits(ss[i as int], ver@));
                            assert(sets_admit(ss, ver@));
                        }
                        return true;
                    }
                    i = i + 1;
                }
                false
            },
            None => false,
        }
    }

    /// Pick the highest matching version from a list of version strings
    pub fn select_best<'a>(&self, versions: &[&'a str]) -> (r: Option<&'a str>)
        ensures
            match r {
                Some(v) => exists|i: int|
                    0 <= i < versions@.len() && v == versions@[i] && #[trigger] best_choice(
                        self.raw@,
                        self.range_sets(),
                        versions@,
                        i,
                    ),
                None => forall|j: int| !is_candidate(self.raw@, self.range_sets(), versions@, j),
            },
    {
        let ghost vs = versions@;
        let ghost cand = candidates(self.raw@, self.range_sets(), vs);
        let ghost stable = stable_candidates(self.raw@, self.range_sets(), vs);
        let mut best_any: Option<(usize, SemVersion)> = None;
        let mut best_stable: Option<(usize, SemVersion)> = None;
        let mut i: usize = 0;
        while i < versions.len()
            invariant
                vs == versions@,
                i <= vs.len(),
                cand == candidates(self.raw@, self.range_sets(), vs),
                stable == stable_candidates(self.raw@, self.range_sets(), vs),
                match &best_any {
                    Some((b, bv)) => {
                        &&& *b < i
                        &&& cand(*b as int)
                        &&& bv@ == parsed(vs[*b as int]@)
                        &&& forall|j: int|
                            0 <= j < i && #[trigger] cand(j) ==> precedence(
                                parsed(vs[j]@),
                                bv@,
                            ) != Order::Greater
                        &&& forall|j: int|
                            0 <= j < *b && #[trigger] cand(j) ==> precedence(
                                parsed(vs[j]@),
                                bv@,
                            ) == Order::Less
                    },
                    None => forall|j: int| 0 <= j < i ==> !#[trigger] cand(j),
                },
                match &best_stable {
                    Some((b, bv)) => {
                        &&& *b < i
                        &&& stable(*b as int)
                        &&& bv@ == parsed(vs[*b as int]@)
                        &&& forall|j: int|
                            0 <= j < i && #[trigger] stable(j) ==> precedence(
                                parsed(vs[j]@),
                                bv@,
                            ) != Order::Greater
                        &&& forall|j: int|
                            0 <= j < *b && #[trigger] stable(j) ==> precedence(
                                parsed(vs[j]@),
                                bv@,
                            ) == Order::Less
                    },
                    None => forall|j: int| 0 <= j < i ==> !#[trigger] stable(j),
                },
            decreases vs.len() - i,
        {
            let v = versions[i];
            if let Some(ver) = parse_version(v) {
                if self.matches(v) {
                    assert(cand(i as int));
                    let is_stable = ver.pre_release.len() == 0 && ver.build.len() == 0;
                    let better_any = match &best_any {
                        Some((_, bv)) => match compare_versions(&ver, bv) {
                            Order::Greater => true,
                            _ => false,
                        },
                        None => true,
                    };
                    if is_stable {
                        assert(stable(i as int));
                        let better = match &best_stable {
                            Some((_, bv)) => match compare_versions(&ver, bv) {
                                Order::Greater => true,
                                _ => false,
                            },
                            None => true,
                        };
                        if better {
                            let ver2 = parse_version(v).unwrap();
                            proof {
                                Self::lemma_step_better(vs, stable, best_stable, i as int, ver@);
                            }
                            best_stable = Some((i, ver2));
                        }
                    } else {
                        assert(!stable(i as int));
                    }
                    if better_any {
                        proof {
                            Self::lemma_step_better(vs, cand, best_any, i as int, ver@);
                        }
                        best_any = Some((i, ver));
                        }
                } else {
                    assert(!cand(i as int));
                    assert(!stable(i as int));
                }
            } else {
                assert(!cand(i as int));
                assert(!stable(i as int));
            }
            i = i + 1;
        }
        let allows_prerelease = contains(&trim_chars(&chars_of(self.raw.as_str())), &lit("-"));
        proof {
            reveal_strlit("-");
            assert(forall|t: Seq<char>| contains_seq(t, "-"@) <==> t.contains('-')) by {
                assert forall|t: Seq<char>| contains_seq(t, "-"@) <==> t.contains('-') by {
                    if t.contains('-') {
                        let k = choose|k: int| 0 <= k < t.len() && t[k] == '-';
                        assert(t.subrange(k, k + 1) =~= "-"@);
                        assert(occurs_at(t, "-"@, k));
                    }
                    if contains_seq(t, "-"@) {
                        let k = choose|k: int| occurs_at(t, "-"@, k);
                        assert(t.subrange(k, k + 1)[0] == t[k]);
                    }
                }
            }
        }
        if !allows_prerelease {
            if let Some((b, _)) = best_stable {
                assert(stable(b as int));
                assert(is_best(vs, stable, b as int));
                let r = versions[b];
                assert(r == versions@[b as int]);
                assert(best_choice(self.raw@, self.range_sets(), vs, b as int));
                return Some(r);
            }
        }
        match best_any {
            Some((b, _)) => {
                assert(cand(b as int));
                assert(is_best(vs, cand, b as int));
                let r = versions[b];
                assert(r == versions@[b as int]);
                proof {
                    if !trim(self.raw@).contains('-') && (exists|j: int|
                        #[trigger] is_stable_candidate(self.raw@, self.range_sets(), vs, j)) {
                        let j = choose|j: int|
                            #[trigger] is_stable_candidate(self.raw@, self.range_sets(), vs, j);
                        assert(stable(j));
                    }
                }
                assert(best_choice(self.raw@, self.range_sets(), vs, b as int));
                Some(r)
            },
            None => {
                assert forall|j: int| !is_candidate(self.raw@, self.range_sets(), vs, j) by {
                    if 0 <= j < vs.len() {
                        assert(!cand(j));
                    }
                }
                None
            },
        }
    }

    proof fn lemma_step_better(
        vs: Seq<&str>,
        ok: spec_fn(int) -> bool,
        best: Option<(usize, SemVersion)>,
        i: int,
        ver: VersionView,
    )
        requires
            ok(i),
            ver == parsed(vs[i]@),
            match best {
                Some((b, bv)) => {
                    &&& b < i
                    &&& bv@ == parsed(vs[b as int]@)
                    &&& precedence(ver, bv@) == Order::Greater
                    &&& forall|j: int|
                        0 <= j < i && #[trigger] ok(j) ==> precedence(parsed(vs[j]@), bv@)
                            != Order::Greater
                },
                None => forall|j: int| 0 <= j < i ==> !#[trigger] ok(j),
            },
        ensures
            forall|j: int|
                0 <= j < i + 1 && #[trigger] ok(j) ==> precedence(parsed(vs[j]@), ver)
                    != Order::Greater,
            forall|j: int|
                0 <= j < i && #[trigger] ok(j) ==> precedence(parsed(vs[j]@), ver) == Order::Less,
    {
        lemma_precedence_refl(ver);
        match best {
            Some((b, bv)) => {
                lemma_precedence_flip(ver, bv@);
                assert forall|j: int| 0 <= j < i && #[trigger] ok(j) implies precedence(
                    parsed(vs[j]@),
                    ver,
                ) == Order::Less by {
                    lemma_precedence_trans(parsed(vs[j]@), bv@, ver);
                }
            },
            None => {},
        }
    }

}

} // verus!
