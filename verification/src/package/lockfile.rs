//! npm's `package-lock.json`: entries by install path, normalised to format version 3.
use vstd::prelude::*;

use crate::config::opt_view;
use crate::json::JsonValue;
use crate::strmap::{has_key, lookup, StrMap};
use crate::text::chars_of;

verus! {

/// Represents npm's `package-lock.json` format.
/// Supports reading v2 and v3, automatically normalizing/upgrading to v3.
pub struct PackageLock {
    pub name: String,
    pub version: Option<String>,
    pub lockfile_version: u32,
    pub requires: Option<bool>,
    /// Install path to entry: `""` is the root project, `node_modules/foo` a
    /// top-level package, `node_modules/foo/node_modules/bar` a nested one.
    pub packages: StrMap<LockPackage>,
    /// Legacy dependencies map (lockfile versions 1 and 2).
    pub dependencies: StrMap<JsonValue>,
}

pub struct LockPackage {
    pub name: Option<String>,
    pub version: Option<String>,
    pub resolved: Option<String>,
    pub integrity: Option<String>,
    pub dev: bool,
    pub optional: bool,
    pub dev_optional: bool,
    pub has_install_script: bool,
    pub license: Option<String>,
    pub bin: Option<JsonValue>,
    pub engines: Option<StrMap<String>>,
    pub os: Option<Vec<String>>,
    pub cpu: Option<Vec<String>>,
    pub dependencies: Option<StrMap<String>>,
    pub dev_dependencies: Option<StrMap<String>>,
    pub peer_dependencies: Option<StrMap<String>>,
    pub peer_dependencies_meta: Option<JsonValue>,
    pub optional_dependencies: Option<StrMap<String>>,
    pub link: Option<bool>,
    pub extra: StrMap<JsonValue>,
}

/// Every field of the entry but its name and version is unset.
pub open spec fn bare_entry(p: LockPackage) -> bool {
    &&& p.resolved is None
    &&& p.integrity is None
    &&& !p.dev
    &&& !p.optional
    &&& !p.dev_optional
    &&& !p.has_install_script
    &&& p.license is None
    &&& p.bin is None
    &&& p.engines is None
    &&& p.os is None
    &&& p.cpu is None
    &&& p.dependencies is None
    &&& p.dev_dependencies is None
    &&& p.peer_dependencies is None
    &&& p.peer_dependencies_meta is None
    &&& p.optional_dependencies is None
    &&& p.link is None
    &&& p.extra@.len() == 0
}

/// The entry that stands for the root project `name` at `version`.
pub open spec fn is_root_entry(p: LockPackage, name: Seq<char>, version: Option<Seq<char>>) -> bool {
    &&& opt_view(p.name) == Some(name)
    &&& opt_view(p.version) == version
    &&& bare_entry(p)
}

/// A field is serialised only when it is set.
pub fn is_false(b: &bool) -> (r: bool)
    ensures
        r == !*b,
{
    !*b
}

impl Default for LockPackage {
    fn default() -> (p: Self)
        ensures
            p.name is None,
            p.version is None,
            bare_entry(p),
    {
        LockPackage {
            name: None,
            version: None,
            resolved: None,
            integrity: None,
            dev: false,
            optional: false,
            dev_optional: false,
            has_install_script: false,
            license: None,
            bin: None,
            engines: None,
            os: None,
            cpu: None,
            dependencies: None,
            dev_dependencies: None,
            peer_dependencies: None,
            peer_dependencies_meta: None,
            optional_dependencies: None,
            link: None,
            extra: StrMap::new(),
        }
    }
}

pub fn copy_opt_string(o: &Option<String>) -> (r: Option<String>)
    ensures
        r == *o,
{
    match o {
        Some(s) => Some(s.clone()),
        None => None,
    }
}

fn root_entry(name: &String, version: &Option<String>) -> (p: LockPackage)
    ensures
        is_root_entry(p, name@, opt_view(*version)),
        p.name == Some(*name),
        p.version == *version,
{
    let mut p = LockPackage::default();
    p.name = Some(name.clone());
    p.version = copy_opt_string(version);
    p
}

/// What reading does to a parsed lockfile: an older format is upgraded to
/// version 3 (dropping the legacy `dependencies` and `requires`), and a missing
/// root entry is added from the lockfile's name and version.
pub open spec fn normalized(before: PackageLock, after: PackageLock) -> bool {
    &&& after.name == before.name
    &&& after.version == before.version
    &&& before.lockfile_version < 3 ==> {
        &&& after.lockfile_version == 3
        &&& after.dependencies@.len() == 0
        &&& after.requires is None
    }
    &&& before.lockfile_version >= 3 ==> {
        &&& after.lockfile_version == before.lockfile_version
        &&& after.dependencies == before.dependencies
        &&& after.requires == before.requires
    }
    &&& has_key(before.packages@, ""@) ==> after.packages == before.packages
    &&& !has_key(before.packages@, ""@) ==> {
        &&& (lookup(after.packages@, ""@) matches Some(root) && is_root_entry(
            root,
            before.name@,
            opt_view(before.version),
        ))
        &&& forall|q: Seq<char>|
            q != ""@ ==> lookup(after.packages@, q) == lookup(before.packages@, q)
    }
}

impl PackageLock {
    /// A version 3 lockfile holding only the root entry.
    pub fn new_v3(name: String, version: Option<String>) -> (lock: Self)
        ensures
            lock.name == name,
            lock.version == version,
            lock.lockfile_version == 3,
            lock.requires is None,
            lock.dependencies@.len() == 0,
            lock.packages@.len() == 1,
            lookup(lock.packages@, ""@) matches Some(root) && is_root_entry(
                root,
                name@,
                opt_view(version),
            ),
    {
        let root = root_entry(&name, &version);
        let mut packages: StrMap<LockPackage> = StrMap::new();
        let key = String::new();
        proof {
            reveal_strlit("");
            assert(key@ =~= ""@);
        }
        packages.insert(key, root);
        proof {
            assert(!has_key(Seq::<(String, LockPackage)>::empty(), ""@));
        }
        PackageLock {
            name,
            version,
            lockfile_version: 3,
            requires: None,
            packages,
            dependencies: StrMap::new(),
        }
    }

    /// What reading a lockfile does after parsing it: an older format is upgraded
    /// to version 3 (dropping the legacy `dependencies` and `requires`), and a
    /// missing root entry is added from the lockfile's name and version.
    pub fn normalize(&mut self)
        ensures
            normalized(*old(self), *final(self)),
    {
        if self.lockfile_version < 3 {
            self.lockfile_version = 3;
            self.dependencies = StrMap::new();
            self.requires = None;
        }
        if !self.packages.contains_key(&chars_of("")) {
            let root = root_entry(&self.name, &self.version);
            let key = String::new();
            proof {
                reveal_strlit("");
                assert(key@ =~= ""@);
            }
            self.packages.insert(key, root);
        }
    }
}

} // verus!
