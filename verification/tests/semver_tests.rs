use bolt::package::semver::{
    is_git_specifier, is_tarball_url_specifier, normalize_git_url, parse_dependency_req,
    parse_dependency_req_with_catalogs, parse_package_spec, SemverSpec, SpecError,
};
use bolt::package::version::{compare_versions, Order, SemIdent, SemVersion};
use bolt::strmap::StrMap;

#[test]
fn test_gen_mapping_best() {
    let spec = SemverSpec::new("0.4.0-beta.0");
    let versions = vec![
        "0.1.0",
        "0.1.1",
        "0.2.0",
        "0.3.0",
        "0.3.1",
        "0.3.2",
        "0.3.3",
        "0.3.4",
        "0.3.5",
        "0.3.6-beta.0",
        "0.3.6-beta.1",
        "0.3.6",
        "0.3.12",
        "0.3.13",
        "0.4.0-beta.0",
    ];
    assert!(spec.matches("0.4.0-beta.0"));
    assert_eq!(spec.select_best(&versions), Some("0.4.0-beta.0"));
}

#[test]
fn caret_range_picks_highest_stable() {
    let spec = SemverSpec::new("^1.0.0");
    let versions = vec!["1.0.0", "1.2.0", "2.0.0", "1.3.0-beta.1", "1.1.5"];
    assert_eq!(spec.select_best(&versions), Some("1.2.0"));
    assert!(spec.matches("1.9.9"));
    assert!(!spec.matches("2.0.0"));
    assert!(!spec.matches("not-a-version"));
}

#[test]
fn wildcard_and_tags_match_everything() {
    assert!(SemverSpec::new("*").matches("0.0.1"));
    assert!(SemverSpec::new("latest").matches("whatever"));
    assert!(SemverSpec::new("").matches("1.0.0"));
}

#[test]
fn complex_ranges() {
    let spec = SemverSpec::new(">=1.2.0 <2.0.0 || >=3.0.0");
    assert!(spec.matches("1.5.0"));
    assert!(!spec.matches("2.5.0"));
    assert!(spec.matches("3.1.0"));
    let hyphen = SemverSpec::new("1.0.0 - 1.4.0");
    assert!(hyphen.matches("1.2.0"));
    assert!(!hyphen.matches("1.5.0"));
}

#[test]
fn no_candidate_gives_none() {
    let spec = SemverSpec::new("^5.0.0");
    assert_eq!(spec.select_best(&["1.0.0", "2.0.0"]), None);
}

#[test]
fn equal_precedence_keeps_first() {
    let spec = SemverSpec::new("^1.0.0");
    assert_eq!(spec.select_best(&["1.0.0+build.1", "1.0.0"]), Some("1.0.0"));
}

fn version(major: u64, minor: u64, patch: u64, pre: Vec<SemIdent>) -> SemVersion {
    SemVersion { major, minor, patch, build: vec![], pre_release: pre }
}

#[test]
fn version_order() {
    let a = version(1, 2, 3, vec![]);
    let b = version(1, 2, 3, vec![SemIdent::AlphaNumeric("beta".to_string()), SemIdent::Numeric(1)]);
    let c = version(1, 10, 0, vec![]);
    assert_eq!(compare_versions(&a, &b), Order::Greater);
    assert_eq!(compare_versions(&b, &a), Order::Less);
    assert_eq!(compare_versions(&a, &c), Order::Less);
    assert_eq!(compare_versions(&a, &a), Order::Equal);
    assert!(SemverSpec::new("*").matches("x.y"));
    assert!(!SemverSpec::new("^1.0.0").matches("x.y"));
    assert!(SemverSpec::new("^1.2.0").matches("1.10.0"));
}

#[test]
fn package_specs() {
    assert_eq!(parse_package_spec("lodash").unwrap(), ("lodash".to_string(), "latest".to_string()));
    assert_eq!(parse_package_spec("lodash@4.17.21").unwrap(), ("lodash".to_string(), "4.17.21".to_string()));
    assert_eq!(parse_package_spec("@scope/pkg@^1.0.0").unwrap(), ("@scope/pkg".to_string(), "^1.0.0".to_string()));
    assert_eq!(parse_package_spec("@scope/pkg").unwrap(), ("@scope/pkg".to_string(), "latest".to_string()));
    assert_eq!(parse_package_spec("   "), Err(SpecError::EmptySpecifier));
}

#[test]
fn dependency_requirement_kinds() {
    let d = parse_dependency_req("react", "^18.0.0");
    assert_eq!(d.registry_name, "react");
    assert_eq!(d.version_req, "^18.0.0");
    assert!(!d.is_local_file && !d.is_git && !d.is_tarball_url);

    let alias = parse_dependency_req("custom-alias", "npm:real-pkg@^1.0.0");
    assert_eq!(alias.registry_name, "real-pkg");
    assert_eq!(alias.version_req, "^1.0.0");
    assert_eq!(alias.alias_name, Some("custom-alias".to_string()));

    let local = parse_dependency_req("my-local-lib", "file:../local-lib");
    assert!(local.is_local_file);
    assert_eq!(local.version_req, "../local-lib");

    let git = parse_dependency_req("dep", "github:user/repo");
    assert!(git.is_git);
    let tar = parse_dependency_req("url-pkg", "http://127.0.0.1/tarballs/url-pkg-1.2.3.tgz");
    assert!(tar.is_tarball_url);
}

#[test]
fn catalog_requirements() {
    let mut default = StrMap::new();
    default.insert("catalog-pkg".to_string(), "^3.2.0".to_string());
    let mut cats = StrMap::new();
    cats.insert("default".to_string(), default);
    let d = parse_dependency_req_with_catalogs("catalog-pkg", "catalog:default", Some(&cats));
    assert_eq!(d.version_req, "^3.2.0");
    let d2 = parse_dependency_req_with_catalogs("catalog-pkg", "catalog:", Some(&cats));
    assert_eq!(d2.version_req, "^3.2.0");
    let d3 = parse_dependency_req_with_catalogs("other", "catalog:", Some(&cats));
    assert_eq!(d3.version_req, "catalog:");
}

#[test]
fn git_specifiers() {
    assert!(is_git_specifier("git+https://github.com/a/b.git"));
    assert!(is_git_specifier("github:user/repo"));
    assert!(!is_git_specifier("^1.0.0"));
    assert!(is_tarball_url_specifier("https://example.com/pkg.tgz"));
    assert!(!is_tarball_url_specifier("https://github.com/user/repo.git"));
    let (url, c) = normalize_git_url("github:user/repo#v1.0.0");
    assert_eq!(url, "https://github.com/user/repo.git");
    assert_eq!(c, Some("v1.0.0".to_string()));
    let (url2, c2) = normalize_git_url("git+https://example.com/r.git");
    assert_eq!(url2, "https://example.com/r.git");
    assert_eq!(c2, None);
}

#[test]
fn file_specs_named_by_last_piece() {
    assert_eq!(parse_package_spec("file:../pkg").unwrap(), ("pkg".to_string(), "file:../pkg".to_string()));
    assert_eq!(parse_package_spec("file:libs/ui/button").unwrap().0, "button");
}

#[test]
fn catalog_entry_reads_like_the_entry_itself() {
    let mut tools = StrMap::new();
    tools.insert("aliased".to_string(), "npm:real-pkg@^2.0.0".to_string());
    tools.insert("local".to_string(), "file:../local".to_string());
    let mut cats = StrMap::new();
    cats.insert("tools".to_string(), tools);
    for (dep, entry) in [("aliased", "npm:real-pkg@^2.0.0"), ("local", "file:../local")] {
        let via_catalog = parse_dependency_req_with_catalogs(dep, " catalog: tools ", Some(&cats));
        assert_eq!(via_catalog, parse_dependency_req(dep, entry));
    }
    let missing = parse_dependency_req_with_catalogs("absent", "catalog:tools", Some(&cats));
    assert_eq!(missing, parse_dependency_req("absent", "catalog:tools"));
    assert_eq!(missing.version_req, "catalog:tools");
}

#[test]
fn name_at_version_reads_back() {
    for (name, version) in [("lodash", "^4.17.21"), ("@scope/pkg", "1.0.0"), ("left-pad", "1.3.0@x")] {
        let spec = format!("{}@{}", name, version);
        assert_eq!(parse_package_spec(&spec), Ok((name.to_string(), version.to_string())));
    }
}
