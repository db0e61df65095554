use bolt::cli::{
    audit_fails, check_lock_in_sync, create_bin_name, default_command, dependency_type_for,
    exec_confirmed, requirement_to_save, resolve_create_package_name, update_constraints,
    wants_spdx, Commands,
};
use bolt::network::audit::{summarize, AdvisoryItem};
use bolt::package::lockfile::{LockPackage, PackageLock};
use bolt::package::manifest::{DependencyType, PackageJson};
use bolt::strmap::StrMap;
use bolt::text::chars_of;

#[test]
fn test_resolve_create_package_name() {
    assert_eq!(resolve_create_package_name("vite"), "create-vite");
    assert_eq!(resolve_create_package_name("vite@latest"), "create-vite@latest");
    assert_eq!(resolve_create_package_name("create-vite"), "create-vite");
    assert_eq!(resolve_create_package_name("create-vite@1.0.0"), "create-vite@1.0.0");
    assert_eq!(resolve_create_package_name("@scope"), "@scope/create");
    assert_eq!(resolve_create_package_name("@scope@latest"), "@scope/create@latest");
    assert_eq!(resolve_create_package_name("@scope/foo"), "@scope/create-foo");
    assert_eq!(resolve_create_package_name("@scope/foo@latest"), "@scope/create-foo@latest");
    assert_eq!(resolve_create_package_name("@scope/create-foo"), "@scope/create-foo");
}

#[test]
fn create_name_edge_cases() {
    assert_eq!(resolve_create_package_name(""), "create");
    assert_eq!(resolve_create_package_name("  vite  "), "create-vite");
    assert_eq!(resolve_create_package_name("@scope/create"), "@scope/create");
}

#[test]
fn create_names_are_fixed_points() {
    for t in ["vite", "vite@latest", "@scope", "@scope@next", "@scope/app", "@a/b@1", "create-x", "  y "] {
        let once = resolve_create_package_name(t);
        assert_eq!(resolve_create_package_name(&once), once);
    }
    assert_eq!(resolve_create_package_name("   "), "create");
}

#[test]
fn requirement_saved_for_added_packages() {
    assert_eq!(requirement_to_save("1.2.3", None), "^1.2.3");
    assert_eq!(requirement_to_save("latest", Some("4.17.21")), "^4.17.21");
    assert_eq!(requirement_to_save("latest", None), "^1.0.0");
    assert_eq!(requirement_to_save("~2.0.0", None), "~2.0.0");
    assert_eq!(requirement_to_save("next", Some("9.9.9")), "next");
}

#[test]
fn save_flags_choose_table() {
    assert_eq!(dependency_type_for(true, true, true), DependencyType::Dev);
    assert_eq!(dependency_type_for(false, true, true), DependencyType::Optional);
    assert_eq!(dependency_type_for(false, false, true), DependencyType::Peer);
    assert_eq!(dependency_type_for(false, false, false), DependencyType::Prod);
}

#[test]
fn default_command_is_plain_install() {
    match default_command() {
        Commands::Install { packages, save_dev, no_save, dry_run, .. } => {
            assert!(packages.is_empty());
            assert!(!save_dev && !no_save && !dry_run);
        }
        _ => panic!("expected install"),
    }
}

fn table(pairs: &[(&str, &str)]) -> StrMap<String> {
    let mut m = StrMap::new();
    for (k, v) in pairs {
        m.insert(k.to_string(), v.to_string());
    }
    m
}

#[test]
fn ci_requires_lock_in_sync() {
    let mut manifest = PackageJson::default();
    manifest.dependencies = Some(table(&[("a", "^1.0.0")]));
    let mut lock = PackageLock::new_v3("app".to_string(), None);
    assert!(check_lock_in_sync(&manifest, &lock).is_err());
    let mut root = lock.packages.remove(&chars_of("")).unwrap();
    root.dependencies = Some(table(&[("a", "^1.0.0")]));
    lock.packages.insert(String::new(), root);
    assert!(check_lock_in_sync(&manifest, &lock).is_ok());
    let mut root = lock.packages.remove(&chars_of("")).unwrap();
    root.dev_dependencies = Some(table(&[("b", "1")]));
    lock.packages.insert(String::new(), root);
    assert!(check_lock_in_sync(&manifest, &lock).is_err());
    let mut no_root = PackageLock::new_v3("app".to_string(), None);
    no_root.packages.remove(&chars_of(""));
    assert!(check_lock_in_sync(&manifest, &no_root).is_ok());
}

#[test]
fn update_drops_named_top_level_entries() {
    let mut lock = PackageLock::new_v3("app".to_string(), None);
    let mut e = LockPackage::default();
    e.version = Some("1.0.0".to_string());
    lock.packages.insert("node_modules/a".to_string(), e);
    let mut e2 = LockPackage::default();
    e2.version = Some("2.0.0".to_string());
    lock.packages.insert("node_modules/b".to_string(), e2);
    let updated = update_constraints(Some(lock), &["a".to_string()]).unwrap();
    assert!(updated.packages.get(&chars_of("node_modules/a")).is_none());
    assert!(updated.packages.get(&chars_of("node_modules/b")).is_some());
    let lock2 = PackageLock::new_v3("app".to_string(), None);
    assert!(update_constraints(Some(lock2), &[]).is_none());
}

fn advisory(sev: Option<&str>) -> AdvisoryItem {
    AdvisoryItem {
        id: None,
        url: None,
        title: None,
        severity: sev.map(|s| s.to_string()),
        vulnerable_versions: None,
        cwe: vec![],
        cvss: None,
    }
}

#[test]
fn audit_level_threshold() {
    let mut advs = StrMap::new();
    advs.insert("vulnerable-pkg".to_string(), vec![advisory(Some("high"))]);
    let report = summarize(advs, 1);
    assert!(!audit_fails(&report, "critical"));
    assert!(audit_fails(&report, "high"));
    assert!(audit_fails(&report, "LOW"));
    let mut advs2 = StrMap::new();
    advs2.insert("p".to_string(), vec![advisory(None)]);
    let report2 = summarize(advs2, 1);
    assert!(audit_fails(&report2, "bogus"));
    assert!(!audit_fails(&report2, "moderate"));
}

#[test]
fn create_binary_names() {
    assert_eq!(create_bin_name("create-vite@latest"), "create-vite");
    assert_eq!(create_bin_name("@scope/create-app@1.0.0"), "create-app");
    assert_eq!(create_bin_name("create-foo"), "create-foo");
    assert_eq!(create_bin_name("@scope"), "");
}

#[test]
fn exec_prompt_answers() {
    assert!(exec_confirmed("y\n"));
    assert!(exec_confirmed("  YES "));
    assert!(exec_confirmed("\n"));
    assert!(!exec_confirmed("no"));
}

#[test]
fn sbom_format_choice() {
    assert!(wants_spdx("SPDX"));
    assert!(wants_spdx("spdx"));
    assert!(!wants_spdx("cyclonedx"));
}
