use bolt::network::registry::{DistMetadata, RegistryPackageMetadata, RegistryVersionMetadata};
use bolt::package::lockfile::{LockPackage, PackageLock};
use bolt::package::manifest::PackageJson;
use bolt::package::outdated::{current_from_lock, declared_dependencies, outdated_checks, outdated_entry};
use bolt::package::sbom::{generate_cyclonedx, generate_spdx};
use bolt::package::why::explain_package;
use bolt::strmap::StrMap;
use bolt::text::{chars_of, decimal_text};

fn table(pairs: &[(&str, &str)]) -> StrMap<String> {
    let mut m = StrMap::new();
    for (k, v) in pairs {
        m.insert(k.to_string(), v.to_string());
    }
    m
}

fn entry(name: Option<&str>, version: &str, deps: &[(&str, &str)]) -> LockPackage {
    let mut e = LockPackage::default();
    e.name = name.map(|s| s.to_string());
    e.version = Some(version.to_string());
    if !deps.is_empty() {
        e.dependencies = Some(table(deps));
    }
    e
}

fn why_fixture() -> (PackageJson, PackageLock) {
    let mut m = PackageJson::default();
    m.name = Some("why-test-app".to_string());
    m.version = Some("1.0.0".to_string());
    m.dependencies = Some(table(&[("express", "^4.18.0")]));
    let mut lock = PackageLock::new_v3("why-test-app".to_string(), Some("1.0.0".to_string()));
    lock.packages.insert("node_modules/express".to_string(), entry(None, "4.18.2", &[("qs", "6.11.0")]));
    lock.packages.insert("node_modules/qs".to_string(), entry(None, "6.11.0", &[]));
    (m, lock)
}

#[test]
fn why_direct_and_transitive() {
    let (m, lock) = why_fixture();
    let direct = explain_package(&m, &lock, "express");
    assert_eq!(direct.package, "express");
    assert_eq!(direct.reasons.len(), 1);
    let r = &direct.reasons[0];
    assert_eq!(r.required_by, "why-test-app@1.0.0");
    assert_eq!(r.version, "4.18.2");
    assert_eq!(r.dep_type, "dependencies");
    assert_eq!(r.chain, vec!["why-test-app (dependencies)".to_string(), "express".to_string()]);

    let qs = explain_package(&m, &lock, "qs");
    assert_eq!(qs.reasons.len(), 1);
    let q = &qs.reasons[0];
    assert_eq!(q.required_by, "express@4.18.2");
    assert_eq!(q.requirement, "6.11.0");
    assert_eq!(q.location, "node_modules/qs");
    assert_eq!(q.chain, vec!["why-test-app".to_string(), "express".to_string(), "qs".to_string()]);

    assert!(explain_package(&m, &lock, "nothing").reasons.is_empty());
}

#[test]
fn why_drops_duplicate_reasons() {
    let (mut m, lock) = why_fixture();
    m.peer_dependencies = Some(table(&[("express", "^4.18.0")]));
    let r = explain_package(&m, &lock, "express");
    assert_eq!(r.reasons.len(), 1);
}

fn sbom_fixture() -> (PackageJson, PackageLock) {
    let mut m = PackageJson::default();
    m.name = Some("sbom-demo".to_string());
    m.version = Some("1.2.3".to_string());
    m.dependencies = Some(table(&[("sample-dep", "^1.0.0")]));
    let mut lock = PackageLock::new_v3("sbom-demo".to_string(), Some("1.2.3".to_string()));
    let mut root = lock.packages.remove(&chars_of("")).unwrap();
    root.dependencies = Some(table(&[("sample-dep", "^1.0.0")]));
    lock.packages.insert(String::new(), root);
    let mut e = entry(None, "1.0.0", &[]);
    e.resolved = Some("https://registry.npmjs.org/sample-dep/-/sample-dep-1.0.0.tgz".to_string());
    lock.packages.insert("node_modules/sample-dep".to_string(), e);
    lock.packages.insert("node_modules/@scope/pkg".to_string(), entry(None, "2.0.0", &[("sample-dep", "^1")]));
    (m, lock)
}

#[test]
fn cyclonedx_document() {
    let (m, lock) = sbom_fixture();
    let bom = generate_cyclonedx(&m, &lock, "0.1.0").ok().unwrap();
    assert_eq!(bom.bom_format, "CycloneDX");
    assert_eq!(bom.spec_version, "1.5");
    assert!(bom.serial_number.starts_with("urn:uuid:"));
    assert_eq!(bom.serial_number.len(), "urn:uuid:".len() + 32);
    assert_eq!(bom.metadata.component.purl, Some("pkg:npm/sbom-demo@1.2.3".to_string()));
    assert_eq!(bom.components.len(), 2);
    assert_eq!(bom.components[0].purl, Some("pkg:npm/%40scope%2Fpkg@2.0.0".to_string()));
    assert_eq!(bom.components[1].name, "sample-dep");
    assert_eq!(bom.dependencies.len(), 3);
    assert_eq!(bom.dependencies[0].reference, "pkg:npm/sbom-demo@1.2.3");
    assert_eq!(bom.dependencies[0].depends_on, vec!["pkg:npm/sample-dep@1.0.0".to_string()]);
    assert_eq!(bom.dependencies[1].depends_on, vec!["pkg:npm/sample-dep@1.0.0".to_string()]);
}

#[test]
fn spdx_document() {
    let (m, lock) = sbom_fixture();
    let doc = generate_spdx(&m, &lock, "0.1.0").ok().unwrap();
    assert_eq!(doc.spdx_version, "SPDX-2.3");
    assert_eq!(doc.packages.len(), 3);
    assert_eq!(doc.packages[1].spdx_id, "SPDXRef-Package-1");
    assert_eq!(doc.packages[2].spdx_id, "SPDXRef-Package-2");
    assert_eq!(doc.packages[2].download_location, "https://registry.npmjs.org/sample-dep/-/sample-dep-1.0.0.tgz");
    assert_eq!(doc.packages[1].download_location, "NOASSERTION");
    assert_eq!(doc.relationships.len(), 3);
    assert_eq!(doc.relationships[0].relationship_type, "DESCRIBES");
    assert_eq!(doc.creation_info.creators, vec!["Tool: bolt-0.1.0".to_string()]);
    assert!(doc.document_namespace.starts_with("https://spdx.org/spdxdocs/sbom-demo-"));
    assert_eq!(doc.document_namespace.len(), "https://spdx.org/spdxdocs/sbom-demo-".len() + 16);
}

#[test]
fn decimal_numbers() {
    assert_eq!(decimal_text(0), "0");
    assert_eq!(decimal_text(7), "7");
    assert_eq!(decimal_text(120), "120");
}

fn lodash_document() -> RegistryPackageMetadata {
    let mut versions = StrMap::new();
    for v in ["4.17.15", "4.17.21", "5.0.0"] {
        versions.insert(
            v.to_string(),
            RegistryVersionMetadata {
                name: "lodash".to_string(),
                version: v.to_string(),
                description: None,
                main: None,
                bin: None,
                dist: DistMetadata::default(),
                dependencies: None,
                dev_dependencies: None,
                peer_dependencies: None,
                peer_dependencies_meta: None,
                optional_dependencies: None,
                engines: None,
                os: None,
                cpu: None,
                scripts: None,
            },
        );
    }
    RegistryPackageMetadata {
        name: "lodash".to_string(),
        dist_tags: table(&[("latest", "4.17.21")]),
        versions,
    }
}

#[test]
fn outdated_report() {
    let mut m = PackageJson::default();
    m.name = Some("outdated-test-app".to_string());
    m.dependencies = Some(table(&[("lodash", "^4.17.0"), ("local", "file:../x")]));
    m.dev_dependencies = Some(table(&[("lodash", "^3.0.0"), ("jest", "^29.0.0")]));
    let declared = declared_dependencies(&m, false, false);
    assert_eq!(declared.get(&chars_of("lodash")), Some(&("^4.17.0".to_string(), "dependencies".to_string())));
    assert_eq!(declared.get(&chars_of("jest")), Some(&("^29.0.0".to_string(), "devDependencies".to_string())));
    let prod = declared_dependencies(&m, true, false);
    assert!(prod.get(&chars_of("jest")).is_none());
    let dev = declared_dependencies(&m, false, true);
    assert_eq!(dev.get(&chars_of("lodash")), Some(&("^3.0.0".to_string(), "devDependencies".to_string())));

    let checks = outdated_checks(&m, &declared, &[]);
    assert_eq!(checks.len(), 2);
    let filtered = outdated_checks(&m, &declared, &["lodash".to_string()]);
    assert_eq!(filtered.len(), 1);
    let check = &filtered[0];
    assert_eq!(check.registry_name, "lodash");

    let mut lock = PackageLock::new_v3("outdated-test-app".to_string(), None);
    lock.packages.insert("node_modules/lodash".to_string(), entry(None, "4.17.15", &[]));
    let current = current_from_lock(&lock, "lodash");
    assert_eq!(current, "4.17.15");
    assert_eq!(current_from_lock(&lock, "jest"), "MISSING");
    let info = outdated_entry(&m, check, current, &lodash_document()).unwrap();
    assert_eq!(info.current, "4.17.15");
    assert_eq!(info.wanted, "4.17.21");
    assert_eq!(info.latest, "4.17.21");
    assert_eq!(info.dependent, "outdated-test-app");
    assert_eq!(info.location, "node_modules/lodash");
    assert!(outdated_entry(&m, check, "4.17.21".to_string(), &lodash_document()).is_none());
}
