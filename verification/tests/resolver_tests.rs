use bolt::cli::check_lock_in_sync;
use bolt::json::JsonValue;
use bolt::network::registry::{DistMetadata, RegistryPackageMetadata, RegistryVersionMetadata};
use bolt::package::lockfile::{LockPackage, PackageLock};
use bolt::package::manifest::PackageJson;
use bolt::resolver::{initial_queue, Fetch, Resolution, ResolveError, Resolver, ResolvedNode};
use bolt::strmap::StrMap;
use bolt::text::chars_of;

fn table(pairs: &[(&str, &str)]) -> StrMap<String> {
    let mut m = StrMap::new();
    for (k, v) in pairs {
        m.insert(k.to_string(), v.to_string());
    }
    m
}

fn version(name: &str, v: &str, deps: &[(&str, &str)]) -> RegistryVersionMetadata {
    RegistryVersionMetadata {
        name: name.to_string(),
        version: v.to_string(),
        description: None,
        main: None,
        bin: None,
        dist: DistMetadata {
            tarball: format!("http://r/{}-{}.tgz", name, v),
            shasum: Some("abc".to_string()),
            integrity: None,
        },
        dependencies: if deps.is_empty() { None } else { Some(table(deps)) },
        dev_dependencies: None,
        peer_dependencies: None,
        peer_dependencies_meta: None,
        optional_dependencies: None,
        engines: None,
        os: None,
        cpu: None,
        scripts: None,
    }
}

/// A registry of packages: name to (latest, versions).
struct Registry {
    packages: Vec<(String, String, Vec<(String, Vec<(String, String)>)>)>,
}

impl Registry {
    fn document(&self, name: &str) -> Result<RegistryPackageMetadata, String> {
        for (n, latest, versions) in &self.packages {
            if n == name {
                let mut vs = StrMap::new();
                for (v, deps) in versions {
                    let d: Vec<(&str, &str)> = deps.iter().map(|(a, b)| (a.as_str(), b.as_str())).collect();
                    vs.insert(v.clone(), version(n, v, &d));
                }
                return Ok(RegistryPackageMetadata {
                    name: n.clone(),
                    dist_tags: table(&[("latest", latest)]),
                    versions: vs,
                });
            }
        }
        Err(format!("Package '{}' not found", name))
    }
}

fn pkg(name: &str, latest: &str, versions: &[(&str, &[(&str, &str)])]) -> (String, String, Vec<(String, Vec<(String, String)>)>) {
    (
        name.to_string(),
        latest.to_string(),
        versions
            .iter()
            .map(|(v, deps)| (v.to_string(), deps.iter().map(|(a, b)| (a.to_string(), b.to_string())).collect()))
            .collect(),
    )
}

fn resolve(resolver: &Resolver, manifests: &[PackageJson], reg: &Registry) -> Result<StrMap<ResolvedNode>, ResolveError> {
    let catalogs = resolver.merged_catalogs(manifests);
    let mut st = Resolution::new(initial_queue(manifests));
    while let Some(f) = resolver.next_fetch(manifests, &catalogs, &mut st) {
        let mut fetch = f;
        loop {
            match fetch {
                Fetch::Metadata { name } => match resolver.metadata_fetched(&mut st, reg.document(&name))? {
                    Some(again) => fetch = again,
                    None => break,
                },
                Fetch::LocalManifest { path } => {
                    let mut m = PackageJson::default();
                    m.name = Some("my-local-lib".to_string());
                    m.version = Some("1.0.0".to_string());
                    st.local_fetched(Some(m), format!("/project/{}", path))?;
                    break;
                }
                _ => panic!("unexpected fetch"),
            }
        }
    }
    Ok(st.into_installed())
}

fn version_at(installed: &StrMap<ResolvedNode>, path: &str) -> Option<String> {
    installed.get(&chars_of(path)).map(|n| n.version.clone())
}

fn manifest(deps: &[(&str, &str)]) -> PackageJson {
    let mut m = PackageJson::default();
    m.name = Some("app".to_string());
    m.version = Some("1.0.0".to_string());
    m.dependencies = Some(table(deps));
    m
}

#[test]
fn resolves_transitive_dependencies() {
    let reg = Registry {
        packages: vec![
            pkg("is-even", "1.0.0", &[("1.0.0", &[("is-odd", "^1.0.0")])]),
            pkg("is-odd", "1.0.0", &[("1.0.0", &[])]),
        ],
    };
    let r = Resolver::new(None, "linux".to_string(), "x86_64".to_string());
    let installed = resolve(&r, &[manifest(&[("is-even", "^1.0.0")])], &reg).ok().unwrap();
    assert_eq!(installed.len(), 2);
    assert_eq!(version_at(&installed, "node_modules/is-even"), Some("1.0.0".to_string()));
    assert_eq!(version_at(&installed, "node_modules/is-odd"), Some("1.0.0".to_string()));
    let node = installed.get(&chars_of("node_modules/is-odd")).unwrap();
    assert_eq!(node.integrity, "sha1-abc");
    assert_eq!(node.resolved_url, "http://r/is-odd-1.0.0.tgz");
}

#[test]
fn conflicting_versions_are_nested() {
    let reg = Registry {
        packages: vec![
            pkg("pkg-b", "2.0.0", &[("1.0.0", &[]), ("2.0.0", &[])]),
            pkg("pkg-a", "1.0.0", &[("1.0.0", &[("pkg-b", "^1.0.0")])]),
            pkg("pkg-c", "1.0.0", &[("1.0.0", &[("pkg-b", "^2.0.0")])]),
        ],
    };
    let r = Resolver::new(None, "linux".to_string(), "x86_64".to_string());
    let installed = resolve(&r, &[manifest(&[("pkg-a", "^1.0.0"), ("pkg-c", "^1.0.0")])], &reg).ok().unwrap();
    assert_eq!(version_at(&installed, "node_modules/pkg-b"), Some("1.0.0".to_string()));
    assert_eq!(version_at(&installed, "node_modules/pkg-c/node_modules/pkg-b"), Some("2.0.0".to_string()));
}

#[test]
fn dependency_cycles_terminate() {
    let reg = Registry {
        packages: vec![
            pkg("circle-a", "1.0.0", &[("1.0.0", &[("circle-b", "^1.0.0")])]),
            pkg("circle-b", "1.0.0", &[("1.0.0", &[("circle-a", "^1.0.0")])]),
        ],
    };
    let r = Resolver::new(None, "linux".to_string(), "x86_64".to_string());
    let installed = resolve(&r, &[manifest(&[("circle-a", "^1.0.0")])], &reg).ok().unwrap();
    assert_eq!(installed.len(), 2);
}

#[test]
fn npm_alias_installs_under_alias() {
    let reg = Registry { packages: vec![pkg("real-pkg", "1.2.3", &[("1.2.3", &[])])] };
    let r = Resolver::new(None, "linux".to_string(), "x86_64".to_string());
    let installed = resolve(&r, &[manifest(&[("custom-alias", "npm:real-pkg@^1.0.0")])], &reg).ok().unwrap();
    let node = installed.get(&chars_of("node_modules/custom-alias")).unwrap();
    assert_eq!(node.name, "real-pkg");
    assert_eq!(node.version, "1.2.3");
}

#[test]
fn overrides_replace_requirements() {
    let reg = Registry { packages: vec![pkg("override-pkg", "2.0.0", &[("1.0.0", &[]), ("2.0.0", &[])])] };
    let mut m = manifest(&[("override-pkg", "^1.0.0")]);
    let mut ov = StrMap::new();
    ov.insert("override-pkg".to_string(), JsonValue::Str("2.0.0".to_string()));
    m.overrides = Some(ov);
    let r = Resolver::new(None, "linux".to_string(), "x86_64".to_string());
    let installed = resolve(&r, &[m], &reg).ok().unwrap();
    assert_eq!(version_at(&installed, "node_modules/override-pkg"), Some("2.0.0".to_string()));
}

#[test]
fn catalogs_supply_requirements() {
    let reg = Registry { packages: vec![pkg("catalog-pkg", "3.2.1", &[("3.2.1", &[])])] };
    let mut root = PackageJson::default();
    root.name = Some("catalog-workspace".to_string());
    let mut cats = StrMap::new();
    cats.insert("default".to_string(), table(&[("catalog-pkg", "^3.2.0")]));
    root.catalogs = Some(cats);
    let member = manifest(&[("catalog-pkg", "catalog:default")]);
    let r = Resolver::new(None, "linux".to_string(), "x86_64".to_string());
    let installed = resolve(&r, &[root, member], &reg).ok().unwrap();
    assert_eq!(version_at(&installed, "node_modules/catalog-pkg"), Some("3.2.1".to_string()));
}

#[test]
fn missing_versions_are_errors_unless_optional() {
    let reg = Registry { packages: vec![pkg("p", "1.0.0", &[("1.0.0", &[])])] };
    let r = Resolver::new(None, "linux".to_string(), "x86_64".to_string());
    match resolve(&r, &[manifest(&[("p", "^9.0.0")])], &reg) {
        Err(ResolveError::NoMatchingVersion { name, req }) => {
            assert_eq!(name, "p");
            assert_eq!(req, "^9.0.0");
        }
        _ => panic!("expected no matching version"),
    }
    match resolve(&r, &[manifest(&[("absent", "^1.0.0")])], &reg) {
        Err(ResolveError::Fetch { message }) => assert!(message.contains("absent")),
        _ => panic!("expected a fetch error"),
    }
    let mut m = PackageJson::default();
    m.optional_dependencies = Some(table(&[("absent", "^1.0.0")]));
    let installed = resolve(&r, &[m], &reg).ok().unwrap();
    assert!(installed.is_empty());
}

#[test]
fn lockfile_versions_are_kept() {
    let reg = Registry { packages: vec![pkg("sel-pkg", "1.1.0", &[("1.0.0", &[]), ("1.1.0", &[])])] };
    let mut lock = PackageLock::new_v3("app".to_string(), None);
    let mut e = LockPackage::default();
    e.version = Some("1.0.0".to_string());
    lock.packages.insert("node_modules/sel-pkg".to_string(), e);
    let r = Resolver::new(Some(lock), "linux".to_string(), "x86_64".to_string());
    let installed = resolve(&r, &[manifest(&[("sel-pkg", "^1.0.0")])], &reg).ok().unwrap();
    assert_eq!(version_at(&installed, "node_modules/sel-pkg"), Some("1.0.0".to_string()));
    let fresh = Resolver::new(None, "linux".to_string(), "x86_64".to_string());
    let installed2 = resolve(&fresh, &[manifest(&[("sel-pkg", "^1.0.0")])], &reg).ok().unwrap();
    assert_eq!(version_at(&installed2, "node_modules/sel-pkg"), Some("1.1.0".to_string()));
}

#[test]
fn local_file_dependencies() {
    let reg = Registry { packages: vec![] };
    let r = Resolver::new(None, "linux".to_string(), "x86_64".to_string());
    let installed = resolve(&r, &[manifest(&[("my-local-lib", "file:../local-lib")])], &reg).ok().unwrap();
    let node = installed.get(&chars_of("node_modules/my-local-lib")).unwrap();
    assert!(node.is_local_file);
    assert_eq!(node.resolved_url, "file:../local-lib");
    assert_eq!(node.local_source_path, Some("/project/../local-lib".to_string()));
}

#[test]
fn tarball_dependencies_record_integrity() {
    let manifests = [manifest(&[("url-pkg", "http://r/tarballs/url-pkg-1.2.3.tgz")])];
    let r = Resolver::new(None, "linux".to_string(), "x86_64".to_string());
    let catalogs = r.merged_catalogs(&manifests);
    let mut st = Resolution::new(initial_queue(&manifests));
    match r.next_fetch(&manifests, &catalogs, &mut st) {
        Some(Fetch::Tarball { url }) => assert_eq!(url, "http://r/tarballs/url-pkg-1.2.3.tgz"),
        _ => panic!("expected a tarball fetch"),
    }
    let mut m = PackageJson::default();
    m.name = Some("url-pkg".to_string());
    m.version = Some("1.2.3".to_string());
    st.tarball_fetched(b"bytes", Some(m));
    assert!(r.next_fetch(&manifests, &catalogs, &mut st).is_none());
    let installed = st.into_installed();
    let node = installed.get(&chars_of("node_modules/url-pkg")).unwrap();
    assert_eq!(node.version, "1.2.3");
    assert!(node.integrity.starts_with("sha512-"));
}

#[test]
fn git_dependencies_fetch_checkouts() {
    let manifests = [manifest(&[("my-git-dep", "github:user/repo#main")])];
    let r = Resolver::new(None, "linux".to_string(), "x86_64".to_string());
    let catalogs = r.merged_catalogs(&manifests);
    let mut st = Resolution::new(initial_queue(&manifests));
    match r.next_fetch(&manifests, &catalogs, &mut st) {
        Some(Fetch::GitRepo { url, committish }) => {
            assert_eq!(url, "https://github.com/user/repo.git");
            assert_eq!(committish, Some("main".to_string()));
        }
        _ => panic!("expected a git fetch"),
    }
    st.git_fetched("/cache/git/x".to_string(), "deadbeef".to_string(), None);
    let installed = st.into_installed();
    let node = installed.get(&chars_of("node_modules/my-git-dep")).unwrap();
    assert_eq!(node.name, "my-git-dep");
    assert_eq!(node.version, "1.0.0");
    assert_eq!(node.resolved_url, "git+https://github.com/user/repo.git#deadbeef");
}

#[test]
fn lockfile_from_resolution() {
    let reg = Registry {
        packages: vec![
            pkg("is-even", "1.0.0", &[("1.0.0", &[("is-odd", "^1.0.0")])]),
            pkg("is-odd", "1.0.0", &[("1.0.0", &[])]),
        ],
    };
    let m = manifest(&[("is-even", "^1.0.0")]);
    let r = Resolver::new(None, "linux".to_string(), "x86_64".to_string());
    let installed = resolve(&r, std::slice::from_ref(&m), &reg).ok().unwrap();
    let lock = Resolver::build_lockfile(&m, &installed);
    assert_eq!(lock.lockfile_version, 3);
    assert_eq!(lock.packages.len(), 3);
    let root = lock.packages.get(&chars_of("")).unwrap();
    assert_eq!(root.name, Some("app".to_string()));
    assert!(root.dependencies.as_ref().unwrap().get(&chars_of("is-even")).is_some());
    let even = lock.packages.get(&chars_of("node_modules/is-even")).unwrap();
    assert_eq!(even.version, Some("1.0.0".to_string()));
    assert_eq!(even.integrity, Some("sha1-abc".to_string()));
    assert!(even.dependencies.as_ref().unwrap().get(&chars_of("is-odd")).is_some());
    let odd = lock.packages.get(&chars_of("node_modules/is-odd")).unwrap();
    assert!(odd.dependencies.is_none());
}

#[test]
fn built_lockfile_passes_clean_install_check() {
    let reg = Registry {
        packages: vec![
            pkg("is-even", "1.0.0", &[("1.0.0", &[("is-odd", "^1.0.0")])]),
            pkg("is-odd", "1.0.0", &[("1.0.0", &[])]),
        ],
    };
    let mut m = manifest(&[("is-even", "^1.0.0")]);
    m.dev_dependencies = Some(table(&[("is-odd", "1.0.0")]));
    let r = Resolver::new(None, "linux".to_string(), "x86_64".to_string());
    let installed = resolve(&r, std::slice::from_ref(&m), &reg).ok().unwrap();
    let lock = Resolver::build_lockfile(&m, &installed);
    assert!(check_lock_in_sync(&m, &lock).is_ok());
}
