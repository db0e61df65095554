//! The `package.json` manifest: its dependency tables and the binaries it declares.
use vstd::prelude::*;

use crate::json::{json_str, JsonValue};
use crate::strmap::{lookup, StrMap};
use crate::text::{chars_of, slice_of, split_all, split_pieces, string_of, strip_prefix};

verus! {

pub struct PackageJson {
    pub name: Option<String>,
    pub version: Option<String>,
    pub description: Option<String>,
    pub main: Option<String>,
    pub bin: Option<JsonValue>,
    pub scripts: Option<StrMap<String>>,
    pub dependencies: Option<StrMap<String>>,
    pub dev_dependencies: Option<StrMap<String>>,
    pub peer_dependencies: Option<StrMap<String>>,
    pub peer_dependencies_meta: Option<JsonValue>,
    pub optional_dependencies: Option<StrMap<String>>,
    pub workspaces: Option<JsonValue>,
    pub overrides: Option<StrMap<JsonValue>>,
    pub resolutions: Option<StrMap<JsonValue>>,
    pub catalogs: Option<StrMap<StrMap<String>>>,
    /// Every other field of the document, kept as it was read.
    pub extra: StrMap<JsonValue>,
}

#[derive(Debug, Clone, Copy, PartialEq, Eq, Structural)]
pub enum DependencyType {
    Prod,
    Dev,
    Optional,
    Peer,
}

/// The text stored under `k` in a string table.
pub open spec fn str_entry(m: Seq<(String, String)>, k: Seq<char>) -> Option<Seq<char>> {
    match lookup(m, k) {
        Some(v) => Some(v@),
        None => None,
    }
}

/// The requirement stored under `k` in an optional dependency table (`None` when the
/// table is absent).
pub open spec fn dep_entry(t: Option<StrMap<String>>, k: Seq<char>) -> Option<Seq<char>> {
    match t {
        Some(m) => str_entry(m@, k),
        None => None,
    }
}

/// The table that a dependency of the given kind is listed in.
pub open spec fn table_of(p: PackageJson, kind: DependencyType) -> Option<StrMap<String>> {
    match kind {
        DependencyType::Prod => p.dependencies,
        DependencyType::Dev => p.dev_dependencies,
        DependencyType::Optional => p.optional_dependencies,
        DependencyType::Peer => p.peer_dependencies,
    }
}

/// The two manifests agree on every field but the four dependency tables.
pub open spec fn same_but_tables(a: PackageJson, b: PackageJson) -> bool {
    &&& a.name == b.name
    &&& a.version == b.version
    &&& a.description == b.description
    &&& a.main == b.main
    &&& a.bin == b.bin
    &&& a.scripts == b.scripts
    &&& a.peer_dependencies_meta == b.peer_dependencies_meta
    &&& a.workspaces == b.workspaces
    &&& a.overrides == b.overrides
    &&& a.resolutions == b.resolutions
    &&& a.catalogs == b.catalogs
    &&& a.extra == b.extra
}

/// The name a lone `bin` string is installed under: the package name, without its
/// scope for a scoped name (`@scope/tool` gives `tool`).
pub open spec fn default_bin_name(name: Option<String>) -> Seq<char> {
    let pkg = match name {
        Some(n) => n@,
        None => Seq::<char>::empty(),
    };
    if pkg.len() > 0 && pkg[0] == '@' {
        let parts = split_all(pkg.drop_first(), "/"@);
        if parts.len() > 1 {
            parts[1]
        } else {
            pkg
        }
    } else {
        pkg
    }
}

/// The string value of the last member named `k`, among members whose value is a string.
pub open spec fn last_string_member(ms: Seq<(String, JsonValue)>, k: Seq<char>) -> Option<
    Seq<char>,
>
    decreases ms.len(),
{
    if ms.len() == 0 {
        None
    } else if ms.last().0@ == k && json_str(ms.last().1) is Some {
        json_str(ms.last().1)
    } else {
        last_string_member(ms.drop_last(), k)
    }
}

/// The binaries a manifest declares: command name to script path.
pub open spec fn declared_bin(p: PackageJson, k: Seq<char>) -> Option<Seq<char>> {
    match p.bin {
        Some(JsonValue::Str(s)) => if default_bin_name(p.name).len() > 0 && k == default_bin_name(
            p.name,
        ) {
            Some(s@)
        } else {
            None
        },
        Some(JsonValue::Object(ms)) => last_string_member(ms@, k),
        _ => None,
    }
}

/// `after` is `before` with `name` recorded as `req` in the table of `kind`
/// (created if absent), everything else as it was.
pub open spec fn dependency_added(
    before: PackageJson,
    after: PackageJson,
    name: Seq<char>,
    req: Seq<char>,
    kind: DependencyType,
) -> bool {
    &&& table_of(after, kind) is Some
    &&& dep_entry(table_of(after, kind), name) == Some(req)
    &&& forall|q: Seq<char>|
        q != name ==> dep_entry(table_of(after, kind), q) == dep_entry(table_of(before, kind), q)
    &&& forall|t: DependencyType| t != kind ==> table_of(after, t) == table_of(before, t)
    &&& same_but_tables(after, before)
}

/// `after` is `before` with `name` taken out of all four tables; `removed`
/// says whether any listed it.
pub open spec fn dependency_removed(
    before: PackageJson,
    after: PackageJson,
    name: Seq<char>,
    removed: bool,
) -> bool {
    &&& removed == exists|t: DependencyType| dep_entry(table_of(before, t), name) is Some
    &&& forall|t: DependencyType| dep_entry(table_of(after, t), name) is None
    &&& forall|t: DependencyType, q: Seq<char>|
        q != name ==> dep_entry(table_of(after, t), q) == dep_entry(table_of(before, t), q)
    &&& forall|t: DependencyType| (table_of(after, t) is Some) == (table_of(before, t) is Some)
    &&& same_but_tables(after, before)
}

fn insert_into(slot: &mut Option<StrMap<String>>, name: String, req: String)
    ensures
        *final(slot) is Some,
        dep_entry(*final(slot), name@) == Some(req@),
        forall|q: Seq<char>| q != name@ ==> dep_entry(*final(slot), q) == dep_entry(*old(slot), q),
{
    let mut m = match slot.take() {
        Some(m) => m,
        None => StrMap::new(),
    };
    let ghost k = name@;
    m.insert(name, req);
    *slot = Some(m);
}

fn remove_from(slot: &mut Option<StrMap<String>>, name: &Vec<char>) -> (removed: bool)
    ensures
        removed == (dep_entry(*old(slot), name@) is Some),
        (*final(slot) is Some) == (*old(slot) is Some),
        dep_entry(*final(slot), name@) is None,
        forall|q: Seq<char>| q != name@ ==> dep_entry(*final(slot), q) == dep_entry(*old(slot), q),
{
    match slot {
        Some(m) => {
            let r = m.remove(name);
            r.is_some()
        },
        None => false,
    }
}

impl Default for PackageJson {
    fn default() -> (p: Self)
        ensures
            p.name is None,
            p.version is None,
            p.description is None,
            p.main is None,
            p.bin is None,
            p.scripts is None,
            p.dependencies is None,
            p.dev_dependencies is None,
            p.peer_dependencies is None,
            p.peer_dependencies_meta is None,
            p.optional_dependencies is None,
            p.workspaces is None,
            p.overrides is None,
            p.resolutions is None,
            p.catalogs is None,
            p.extra@.len() == 0,
    {
        PackageJson {
            name: None,
            version: None,
            description: None,
            main: None,
            bin: None,
            scripts: None,
            dependencies: None,
            dev_dependencies: None,
            peer_dependencies: None,
            peer_dependencies_meta: None,
            optional_dependencies: None,
            workspaces: None,
            overrides: None,
            resolutions: None,
            catalogs: None,
            extra: StrMap::new(),
        }
    }
}

impl PackageJson {
    /// Records `name` with `version_req` in the table of `dep_type`, creating the table
    /// if needed; any earlier requirement for `name` there is replaced.
    pub fn add_dependency(&mut self, name: String, version_req: String, dep_type: DependencyType)
        ensures
            dependency_added(*old(self), *final(self), name@, version_req@, dep_type),
    {
        match dep_type {
            DependencyType::Prod => insert_into(&mut self.dependencies, name, version_req),
            DependencyType::Dev => insert_into(&mut self.dev_dependencies, name, version_req),
            DependencyType::Optional => insert_into(
                &mut self.optional_dependencies,
                name,
                version_req,
            ),
            DependencyType::Peer => insert_into(&mut self.peer_dependencies, name, version_req),
        }
    }

    /// Removes `name` from all four dependency tables; `true` when it was listed in any.
    pub fn remove_dependency(&mut self, name: &str) -> (removed: bool)
        ensures
            dependency_removed(*old(self), *final(self), name@, removed),
    {
        let k = chars_of(name);
        let a = remove_from(&mut self.dependencies, &k);
        let b = remove_from(&mut self.dev_dependencies, &k);
        let c = remove_from(&mut self.optional_dependencies, &k);
        let d = remove_from(&mut self.peer_dependencies, &k);
        proof {
            if a {
                assert(dep_entry(table_of(*old(self), DependencyType::Prod), name@) is Some);
            }
            if b {
                assert(dep_entry(table_of(*old(self), DependencyType::Dev), name@) is Some);
            }
            if c {
                assert(dep_entry(table_of(*old(self), DependencyType::Optional), name@) is Some);
            }
            if d {
                assert(dep_entry(table_of(*old(self), DependencyType::Peer), name@) is Some);
            }
        }
        a || b || c || d
    }

    /// Extract executable binaries defined in "bin"
    pub fn get_bins(&self) -> (r: StrMap<String>)
        ensures
            forall|k: Seq<char>| str_entry(r@, k) == declared_bin(*self, k),
    {
        let mut result: StrMap<String> = StrMap::new();
        let default_name = self.default_bin_name_of();
        match &self.bin {
            Some(JsonValue::Str(s)) => {
                if default_name.len() > 0 {
                    result.insert(string_of(default_name), s.clone());
                }
            },
            Some(JsonValue::Object(ms)) => {
                let mut i: usize = 0;
                while i < ms.len()
                    invariant
                        i <= ms@.len(),
                        forall|k: Seq<char>|
                            str_entry(result@, k) == last_string_member(ms@.subrange(0, i as int), k),
                    decreases ms@.len() - i,
                {
                    let ghost before = result@;
                    let ghost pre = ms@.subrange(0, i as int);
                    let ghost now = ms@.subrange(0, i + 1);
                    assert(now.drop_last() =~= pre);
                    assert(now.last() == ms@[i as int]);
                    match &ms[i].1 {
                        JsonValue::Str(s) => {
                            let key = ms[i].0.clone();
                            result.insert(key, s.clone());
                            assert forall|k: Seq<char>|
                                str_entry(result@, k) == last_string_member(now, k) by {
                                if k != key@ {
                                    assert(str_entry(result@, k) == str_entry(before, k));
                                }
                            }
                        },
                        _ => {
                            assert forall|k: Seq<char>|
                                str_entry(result@, k) == last_string_member(now, k) by {
                                assert(json_str(now.last().1) is None);
                            }
                        },
                    }
                    i = i + 1;
                }
                assert(ms@.subrange(0, ms@.len() as int) =~= ms@);
            },
            _ => {},
        }
        result
    }

    fn default_bin_name_of(&self) -> (r: Vec<char>)
        ensures
            r@ == default_bin_name(self.name),
    {
        let pkg = match &self.name {
            Some(n) => chars_of(n.as_str()),
            None => Vec::new(),
        };
        assert(pkg@ == match self.name {
            Some(n) => n@,
            None => Seq::<char>::empty(),
        });
        if pkg.len() > 0 && pkg[0] == '@' {
            proof {
                reveal_strlit("@");
                reveal_strlit("/");
                assert(pkg@.subrange(0, 1) =~= "@"@);
            }
            let stripped = strip_prefix(&pkg, &chars_of("@")).unwrap();
            assert(stripped@ =~= pkg@.drop_first());
            let parts = split_pieces(&stripped, &chars_of("/"));
            assert(parts@.len() == split_all(pkg@.drop_first(), "/"@).len());
            if parts.len() > 1 {
                assert(parts@[1]@ == split_all(pkg@.drop_first(), "/"@)[1]);
                let out = slice_of(&parts[1], 0, parts[1].len());
                assert(out@ =~= parts@[1]@);
                return out;
            }
        }
        pkg
    }
}

} // verus!
