use bolt::json::JsonValue;
use bolt::package::lockfile::{is_false, LockPackage, PackageLock};
use bolt::package::manifest::{DependencyType, PackageJson};
use bolt::package::platform::{is_cpu_supported, is_os_supported, normalize_cpu, normalize_os};
use bolt::strmap::StrMap;
use bolt::text::chars_of;

fn dep(m: &Option<StrMap<String>>, k: &str) -> Option<String> {
    m.as_ref().and_then(|t| t.get(&chars_of(k)).cloned())
}

#[test]
fn add_and_remove_dependencies() {
    let mut p = PackageJson::default();
    p.add_dependency("lodash".to_string(), "^4.17.21".to_string(), DependencyType::Prod);
    p.add_dependency("jest".to_string(), "^29.0.0".to_string(), DependencyType::Dev);
    p.add_dependency("lodash".to_string(), "^4.17.0".to_string(), DependencyType::Prod);
    assert_eq!(dep(&p.dependencies, "lodash"), Some("^4.17.0".to_string()));
    assert_eq!(dep(&p.dev_dependencies, "jest"), Some("^29.0.0".to_string()));
    assert!(p.optional_dependencies.is_none());
    assert!(p.remove_dependency("lodash"));
    assert_eq!(dep(&p.dependencies, "lodash"), None);
    assert!(p.dependencies.is_some());
    assert!(!p.remove_dependency("lodash"));
    assert!(p.remove_dependency("jest"));
}

#[test]
fn add_then_remove_restores_other_entries() {
    let mut p = PackageJson::default();
    p.add_dependency("a".to_string(), "1".to_string(), DependencyType::Peer);
    p.add_dependency("b".to_string(), "2".to_string(), DependencyType::Peer);
    assert!(p.remove_dependency("b"));
    assert_eq!(dep(&p.peer_dependencies, "a"), Some("1".to_string()));
    assert_eq!(dep(&p.peer_dependencies, "b"), None);
}

#[test]
fn bins_from_string_and_object() {
    let mut p = PackageJson::default();
    p.name = Some("@scope/tool".to_string());
    p.bin = Some(JsonValue::Str("bin/cli.js".to_string()));
    let bins = p.get_bins();
    assert_eq!(bins.len(), 1);
    assert_eq!(bins.get(&chars_of("tool")), Some(&"bin/cli.js".to_string()));

    let mut q = PackageJson::default();
    q.name = Some("my-cli".to_string());
    q.bin = Some(JsonValue::Object(vec![
        ("my-cli".to_string(), JsonValue::Str("bin/cli.js".to_string())),
        ("other".to_string(), JsonValue::Bool(true)),
    ]));
    let bins = q.get_bins();
    assert_eq!(bins.len(), 1);
    assert_eq!(bins.get(&chars_of("my-cli")), Some(&"bin/cli.js".to_string()));

    let mut r = PackageJson::default();
    r.bin = Some(JsonValue::Str("x.js".to_string()));
    assert!(r.get_bins().is_empty());
}

#[test]
fn new_lockfile_has_root_entry() {
    let lock = PackageLock::new_v3("app".to_string(), Some("1.0.0".to_string()));
    assert_eq!(lock.lockfile_version, 3);
    let root = lock.packages.get(&chars_of("")).unwrap();
    assert_eq!(root.name, Some("app".to_string()));
    assert_eq!(root.version, Some("1.0.0".to_string()));
    assert!(!root.dev);
}

#[test]
fn old_lockfile_is_upgraded() {
    let mut deps = StrMap::new();
    deps.insert("x".to_string(), JsonValue::Null);
    let mut lock = PackageLock {
        name: "legacy".to_string(),
        version: None,
        lockfile_version: 2,
        requires: Some(true),
        packages: StrMap::new(),
        dependencies: deps,
    };
    lock.normalize();
    assert_eq!(lock.lockfile_version, 3);
    assert!(lock.requires.is_none());
    assert!(lock.dependencies.is_empty());
    let root = lock.packages.get(&chars_of("")).unwrap();
    assert_eq!(root.name, Some("legacy".to_string()));
    let before = lock.packages.len();
    lock.normalize();
    assert_eq!(lock.packages.len(), before);
}

#[test]
fn serialization_skips_false_flags() {
    assert!(is_false(&false));
    assert!(!is_false(&true));
    let e = LockPackage::default();
    assert!(is_false(&e.dev));
}

#[test]
fn test_os_support() {
    assert!(is_os_supported(&None, "linux"));
    assert!(is_os_supported(&Some(vec![]), "linux"));
    let win_only_os = Some(vec!["win32".to_string()]);
    assert!(!is_os_supported(&win_only_os, "linux"));
    let not_win_os = Some(vec!["!win32".to_string()]);
    assert!(is_os_supported(&not_win_os, "linux"));
    let win_os = Some(vec!["win32".to_string(), "linux".to_string()]);
    assert!(is_os_supported(&win_os, "windows"));
    assert!(!is_os_supported(&not_win_os, "windows"));
}

#[test]
fn test_cpu_support() {
    assert!(is_cpu_supported(&None, "x86_64"));
    let x64_cpu = Some(vec!["x64".to_string()]);
    assert!(is_cpu_supported(&x64_cpu, "x86_64"));
    let not_x64 = Some(vec!["!x64".to_string()]);
    assert!(!is_cpu_supported(&not_x64, "x86_64"));
    assert!(!is_cpu_supported(&x64_cpu, "aarch64"));
    assert!(is_cpu_supported(&not_x64, "aarch64"));
}

#[test]
fn platform_names() {
    assert_eq!(normalize_os("windows"), "win32");
    assert_eq!(normalize_os("macos"), "darwin");
    assert_eq!(normalize_os("linux"), "linux");
    assert_eq!(normalize_cpu("x86_64"), "x64");
    assert_eq!(normalize_cpu("aarch64"), "arm64");
    assert_eq!(normalize_cpu("x86"), "ia32");
    assert_eq!(normalize_cpu("riscv64"), "riscv64");
}

#[test]
fn table_insert_then_remove() {
    let mut t: StrMap<u32> = StrMap::new();
    t.insert("b".to_string(), 2);
    t.insert("a".to_string(), 1);
    t.insert("c".to_string(), 3);
    assert_eq!(t.remove(&chars_of("c")), Some(3));
    assert!(t.get(&chars_of("c")).is_none());
    assert_eq!(t.get(&chars_of("a")), Some(&1));
    assert_eq!(t.get(&chars_of("b")), Some(&2));
    let keys: Vec<&str> = t.entries().iter().map(|(k, _)| k.as_str()).collect();
    assert_eq!(keys, vec!["a", "b"]);
    assert_eq!(t.remove(&chars_of("c")), None);
}

#[test]
fn json_copy_is_deep() {
    let v = JsonValue::Object(vec![
        ("name".to_string(), JsonValue::Str("cli".to_string())),
        ("list".to_string(), JsonValue::Array(vec![JsonValue::Bool(true), JsonValue::Number("1.5".to_string())])),
    ]);
    let c = v.copy();
    assert_eq!(c.get("name").and_then(|n| n.as_str()).map(|s| s.as_str()), Some("cli"));
    match c.get("list") {
        Some(JsonValue::Array(items)) => {
            assert_eq!(items.len(), 2);
            assert_eq!(items[0].as_bool(), Some(true));
            assert!(matches!(&items[1], JsonValue::Number(n) if n == "1.5"));
        }
        _ => panic!("list missing"),
    }
}
