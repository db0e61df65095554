use bolt::compression::decode_body;
use bolt::json::JsonValue;
use bolt::network::audit::{
    audit_payload, audit_request_body, audit_url, summarize, AdvisoryItem, Severity,
};
use bolt::network::registry::{
    encode_package_name, engines_from_json, metadata_cache_file, metadata_url, metadata_verdict, registry_url_for,
    fetch_step, retry_delay_ms, tarball_cache_file, tarball_verdict, FetchAction, FetchEvent, RegistryFetch,
    ResponseVerdict,
};
use bolt::network::tarball::{
    entry_target, extraction_plan, is_manifest_entry, sha512_integrity, tarball_manifest_text, verify_integrity,
    TarballError,
};
use bolt::config::NpmConfig;
use bolt::package::lockfile::{LockPackage, PackageLock};
use bolt::strmap::StrMap;
use bolt::text::chars_of;
use sha2::Digest;

#[test]
fn test_verify_integrity_sha512() {
    let data = b"hello world";
    let mut hasher = sha2::Sha512::new();
    hasher.update(data);
    let b64 = base64::Engine::encode(&base64::engine::general_purpose::STANDARD, hasher.finalize());
    let integrity = format!("sha512-{}", b64);
    assert!(verify_integrity(data, &integrity).is_ok());
    assert!(verify_integrity(b"wrong data", &integrity).is_err());
}

#[test]
fn integrity_variants() {
    let data = b"abc";
    let sha1_hex = hex::encode(sha1::Sha1::digest(data));
    let sha1_b64 = base64::Engine::encode(&base64::engine::general_purpose::STANDARD, sha1::Sha1::digest(data));
    assert!(verify_integrity(data, &format!("sha1-{}", sha1_hex)).is_ok());
    assert!(verify_integrity(data, &format!("  sha1-{}  ", sha1_b64)).is_ok());
    match verify_integrity(data, "sha1-deadbeef") {
        Err(TarballError::IntegrityMismatch { algorithm, expected, .. }) => {
            assert_eq!(algorithm, "sha1");
            assert_eq!(expected, "deadbeef");
        }
        _ => panic!("expected a mismatch"),
    }
    assert_eq!(verify_integrity(data, ""), Err(TarballError::UnknownIntegrity { integrity: String::new() }));
    assert_eq!(
        verify_integrity(data, " md5-whatever "),
        Err(TarballError::UnknownIntegrity { integrity: "md5-whatever".to_string() })
    );
    let own = sha512_integrity(data);
    assert!(own.starts_with("sha512-"));
    assert!(verify_integrity(data, &own).is_ok());
    assert!(verify_integrity(b"abd", &own).is_err());
}

#[test]
fn archive_entry_paths() {
    assert_eq!(entry_target("package/index.js").ok(), Some(Some("index.js".to_string())));
    assert_eq!(entry_target("package/lib/a.js").ok(), Some(Some("lib/a.js".to_string())));
    assert_eq!(entry_target("other/x.js").ok(), Some(Some("other/x.js".to_string())));
    assert_eq!(entry_target("package").ok(), Some(None));
    assert_eq!(entry_target("package/").ok(), Some(None));
    assert!(matches!(entry_target("../evil"), Err(TarballError::UnsafeEntry { .. })));
    assert!(matches!(entry_target("package/../../evil"), Err(TarballError::UnsafeEntry { .. })));
    assert!(matches!(entry_target("/etc/passwd"), Err(TarballError::UnsafeEntry { .. })));
}

#[test]
fn encodings() {
    // sha512 of "hello", base64-encoded
    assert_eq!(
        sha512_integrity(b"hello"),
        "sha512-m3HSJL1i83hdltRq0+o9czGb+8KJDKra4t/3JRlnPKcjI8PZm6XBHXx6zG4UuMXaDEZjR1wuXDre9G9zvN7AQw=="
    );
    // sha1 of "hello" in hex is accepted
    assert!(verify_integrity(b"hello", "sha1-aaf4c61ddcc5e8a2dabede0f3b482cd9aea9434d").is_ok());
    let name = tarball_cache_file("");
    assert_eq!(name, "e3b0c44298fc1c149afbf4c8996fb92427ae41e4649b934ca495991b7852b855.tgz");
}

#[test]
fn gzip_round_trip() {
    let mut payload: StrMap<Vec<String>> = StrMap::new();
    payload.insert("b".to_string(), vec!["2.0.0".to_string()]);
    payload.insert("a".to_string(), vec!["1.0.0".to_string(), "1.1.0".to_string()]);
    let z = audit_request_body(&payload);
    assert_eq!(&z[..2], &[0x1f, 0x8b]);
    assert_eq!(decode_body(&z), Some(br#"{"a":["1.0.0","1.1.0"],"b":["2.0.0"]}"#.to_vec()));
    assert_eq!(decode_body(b"{}"), Some(b"{}".to_vec()));
    assert_eq!(decode_body(&[0x1f, 0x8b, 0x00]), None);
}

#[test]
fn registry_names_and_urls() {
    assert_eq!(encode_package_name("@scope/pkg"), "@scope%2fpkg");
    assert_eq!(encode_package_name("lodash"), "lodash");
    assert_eq!(metadata_url("https://r.example", "@a/b"), "https://r.example/@a%2fb");
    assert_eq!(metadata_cache_file("@a/b"), "@a%2fb.json");
    let cfg = NpmConfig::default();
    assert_eq!(registry_url_for(Some("https://r.example//".to_string()), &cfg), "https://r.example");
    assert_eq!(registry_url_for(None, &cfg), "https://registry.npmjs.org");
    let name = tarball_cache_file("https://r.example/x.tgz");
    assert_eq!(name.len(), 68);
    assert!(name.ends_with(".tgz"));
    assert_eq!(retry_delay_ms(1), 400);
    assert_eq!(retry_delay_ms(2), 800);
}

#[test]
fn engines_field_forms() {
    let obj = JsonValue::Object(vec![
        ("node".to_string(), JsonValue::Str(">=14".to_string())),
        ("npm".to_string(), JsonValue::Number("7".to_string())),
    ]);
    let e = engines_from_json(&obj).unwrap();
    assert_eq!(e.get(&chars_of("node")), Some(&">=14".to_string()));
    assert!(e.get(&chars_of("npm")).is_none());
    let arr = JsonValue::Array(vec![JsonValue::Str("node".to_string())]);
    let e2 = engines_from_json(&arr).unwrap();
    assert_eq!(e2.get(&chars_of("node")), Some(&"*".to_string()));
    assert!(engines_from_json(&JsonValue::Null).is_none());
}

#[test]
fn auth_tokens_from_npmrc() {
    let mut cfg = NpmConfig::default();
    cfg.apply_npmrc("# comment\nregistry = https://npm.example.com/\n//npm.example.com/:_authToken=abc123\n");
    assert_eq!(cfg.registry, Some("https://npm.example.com/".to_string()));
    assert_eq!(cfg.get_auth_token_for_url("https://npm.example.com/pkg"), Some("Bearer abc123".to_string()));
    assert_eq!(cfg.get_auth_token_for_url("https://other.example.com/pkg"), None);
}

#[test]
fn severities() {
    assert_eq!(Severity::from_str_loose("HIGH"), Severity::High);
    assert_eq!(Severity::from_str_loose("medium"), Severity::Moderate);
    assert_eq!(Severity::from_str_loose("unknown"), Severity::Low);
    assert_eq!(Severity::Critical.rank(), 4);
    assert_eq!(Severity::Info.rank(), 0);
    assert!(Severity::Low < Severity::High);
}

fn lock_with(entries: &[(&str, Option<&str>, Option<&str>, bool)]) -> PackageLock {
    let mut lock = PackageLock::new_v3("audit-app".to_string(), Some("1.0.0".to_string()));
    for (path, name, version, dev) in entries {
        let mut e = LockPackage::default();
        e.name = name.map(|s| s.to_string());
        e.version = version.map(|s| s.to_string());
        e.dev = *dev;
        lock.packages.insert(path.to_string(), e);
    }
    lock
}

#[test]
fn audit_request_payload() {
    let lock = lock_with(&[
        ("node_modules/a", None, Some("1.0.0"), false),
        ("node_modules/b/node_modules/a", None, Some("2.0.0"), false),
        ("node_modules/c", Some("c-real"), Some("3.0.0"), true),
        ("node_modules/d", None, None, false),
        ("node_modules/x/node_modules/a", None, Some("1.0.0"), false),
    ]);
    let (payload, total) = audit_payload(&lock, false);
    assert_eq!(total, 4);
    assert_eq!(payload.get(&chars_of("a")), Some(&vec!["1.0.0".to_string(), "2.0.0".to_string()]));
    assert_eq!(payload.get(&chars_of("c-real")), Some(&vec!["3.0.0".to_string()]));
    let (payload2, total2) = audit_payload(&lock, true);
    assert_eq!(total2, 3);
    assert!(payload2.get(&chars_of("c-real")).is_none());
    assert_eq!(audit_url("https://r.example"), "https://r.example/-/npm/v1/security/advisories/bulk");
}

fn advisory(sev: Option<&str>) -> AdvisoryItem {
    AdvisoryItem {
        id: None,
        url: None,
        title: None,
        severity: sev.map(|s| s.to_string()),
        vulnerable_versions: None,
        cwe: vec![],
        cvss: None,
    }
}

#[test]
fn advisory_counts() {
    let mut advs = StrMap::new();
    advs.insert("p".to_string(), vec![advisory(Some("high")), advisory(None), advisory(Some("Critical"))]);
    advs.insert("q".to_string(), vec![advisory(Some("moderate")), advisory(Some("info"))]);
    let report = summarize(advs, 7);
    let v = report.metadata.vulnerabilities;
    assert_eq!(report.metadata.total_dependencies, 7);
    assert_eq!((v.info, v.low, v.moderate, v.high, v.critical, v.total), (1, 1, 1, 1, 1, 5));
}

#[test]
fn manifest_entries() {
    assert!(is_manifest_entry("package/package.json"));
    assert!(is_manifest_entry("package.json"));
    assert!(!is_manifest_entry("package/lib/package.json"));
    assert!(!is_manifest_entry("package/"));
}

#[test]
fn extracted_entries_stay_inside() {
    for path in ["package/lib/index.js", "package//lib/./x.js", "lib/a.js", "package/bin/cli"] {
        match entry_target(path) {
            Ok(Some(dest)) => {
                assert!(!dest.starts_with('/'));
                assert!(!dest.split('/').any(|p| p == ".."));
            }
            other => panic!("unexpected {:?} for {}", other, path),
        }
    }
    assert!(entry_target("package/../../etc/passwd").is_err());
    assert!(entry_target("/abs/file").is_err());
}

fn tgz(files: &[(&str, &str)]) -> Vec<u8> {
    let mut builder = tar::Builder::new(Vec::new());
    for (path, content) in files {
        let mut header = tar::Header::new_gnu();
        header.set_size(content.len() as u64);
        header.set_mode(0o644);
        builder.append_data(&mut header, path, content.as_bytes()).unwrap();
    }
    let tar_bytes = builder.into_inner().unwrap();
    let mut enc = flate2::write::GzEncoder::new(Vec::new(), flate2::Compression::default());
    std::io::Write::write_all(&mut enc, &tar_bytes).unwrap();
    enc.finish().unwrap()
}

#[test]
fn manifest_read_from_tarball() {
    let bytes = tgz(&[("package/README.md", "hello"), ("package/package.json", "{\"name\":\"x\"}")]);
    assert_eq!(tarball_manifest_text(&bytes), Some("{\"name\":\"x\"}".to_string()));
    let top = tgz(&[("package.json", "{}"), ("package/package.json", "{\"name\":\"y\"}")]);
    assert_eq!(tarball_manifest_text(&top), Some("{}".to_string()));
    let none = tgz(&[("package/index.js", "x")]);
    assert_eq!(tarball_manifest_text(&none), None);
    assert_eq!(tarball_manifest_text(b"not a tarball"), None);
}

#[test]
fn response_verdicts() {
    assert!(matches!(metadata_verdict(200), ResponseVerdict::Accept));
    assert!(matches!(metadata_verdict(204), ResponseVerdict::Accept));
    assert!(matches!(metadata_verdict(404), ResponseVerdict::NotFound));
    assert!(matches!(metadata_verdict(500), ResponseVerdict::Retry));
    assert!(matches!(metadata_verdict(301), ResponseVerdict::Retry));
    assert!(matches!(tarball_verdict(200), ResponseVerdict::Accept));
    assert!(matches!(tarball_verdict(404), ResponseVerdict::Retry));
}

#[test]
fn windows_style_entries_are_refused() {
    for path in ["..\\x", "C:\\x", "c:x", "\\abs", "package\\..\\..\\x", "package/D:/x", "package/\\x"] {
        assert!(matches!(entry_target(path), Err(TarballError::UnsafeEntry { .. })), "{}", path);
    }
    assert_eq!(entry_target("package/a\\b.js").ok(), Some(Some("a\\b.js".to_string())));
}

fn tgz_with_link(link_path: &str, target: &str) -> Vec<u8> {
    let mut builder = tar::Builder::new(Vec::new());
    let mut header = tar::Header::new_gnu();
    header.set_size(5);
    header.set_mode(0o755);
    builder.append_data(&mut header, "package/bin/cli.js", &b"hello"[..]).unwrap();
    let mut link = tar::Header::new_gnu();
    link.set_entry_type(tar::EntryType::Symlink);
    link.set_size(0);
    builder.append_link(&mut link, link_path, target).unwrap();
    let tar_bytes = builder.into_inner().unwrap();
    let mut enc = flate2::write::GzEncoder::new(Vec::new(), flate2::Compression::default());
    std::io::Write::write_all(&mut enc, &tar_bytes).unwrap();
    enc.finish().unwrap()
}

#[test]
fn extraction_plans() {
    let plan = extraction_plan(&tgz_with_link("package/bin/run", "cli.js")).ok().unwrap();
    assert_eq!(plan.len(), 2);
    assert_eq!(plan[0].dest, "bin/cli.js");
    assert_eq!(plan[0].data, b"hello".to_vec());
    assert_eq!(plan[0].mode, Some(0o755));
    assert_eq!(plan[1].dest, "bin/run");
    assert_eq!(plan[1].kind, b'2');
    assert_eq!(plan[1].link, Some("cli.js".to_string()));
    assert!(extraction_plan(&tgz_with_link("package/bin/up", "../lib/x.js")).is_ok());
    for bad in ["../../x", "/tmp/x", "..\\..\\x", "C:\\x"] {
        match extraction_plan(&tgz_with_link("package/bin/run", bad)) {
            Err(TarballError::UnsafeEntry { path }) => assert_eq!(path, "package/bin/run"),
            _ => panic!("link to {} accepted", bad),
        }
    }
    assert!(matches!(extraction_plan(b"not an archive"), Err(TarballError::Unreadable)));
}

fn fetch_state(memory_cache: bool, bypass_cache: bool, offline: bool) -> RegistryFetch {
    RegistryFetch { memory_cache, bypass_cache, offline, attempt: 0 }
}

#[test]
fn fetch_uses_caches_first() {
    let st = fetch_state(true, false, false);
    let (st, a) = fetch_step(&st, FetchEvent::Begin);
    assert_eq!(a, FetchAction::LookInMemory);
    let (st, a) = fetch_step(&st, FetchEvent::MemoryLooked { hit: false });
    assert_eq!(a, FetchAction::LookOnDisk);
    let (_, a) = fetch_step(&st, FetchEvent::DiskLooked { hit: true });
    assert_eq!(a, FetchAction::UseCached);
    let (_, a) = fetch_step(&fetch_state(false, false, false), FetchEvent::Begin);
    assert_eq!(a, FetchAction::LookOnDisk);
}

#[test]
fn offline_fetch_reports_a_miss() {
    let st = fetch_state(true, false, true);
    let (st, _) = fetch_step(&st, FetchEvent::Begin);
    let (st, _) = fetch_step(&st, FetchEvent::MemoryLooked { hit: false });
    let (_, a) = fetch_step(&st, FetchEvent::DiskLooked { hit: false });
    assert_eq!(a, FetchAction::OfflineMiss);
    let (_, a) = fetch_step(&fetch_state(true, true, true), FetchEvent::Begin);
    assert_eq!(a, FetchAction::OfflineMiss);
}

#[test]
fn fetch_retries_then_gives_up() {
    let (st, a) = fetch_step(&fetch_state(true, true, false), FetchEvent::Begin);
    assert_eq!(a, FetchAction::Request { attempt: 0, delay_ms: 0 });
    let (st, a) = fetch_step(&st, FetchEvent::Answered { verdict: ResponseVerdict::Retry });
    assert_eq!(a, FetchAction::Request { attempt: 1, delay_ms: 400 });
    let (st, a) = fetch_step(&st, FetchEvent::RequestFailed);
    assert_eq!(a, FetchAction::Request { attempt: 2, delay_ms: 800 });
    let (_, a) = fetch_step(&st, FetchEvent::RequestFailed);
    assert_eq!(a, FetchAction::GiveUp);
    let (_, a) = fetch_step(&st, FetchEvent::Answered { verdict: ResponseVerdict::Accept });
    assert_eq!(a, FetchAction::StoreResponse);
    let (_, a) = fetch_step(&st, FetchEvent::Answered { verdict: ResponseVerdict::NotFound });
    assert_eq!(a, FetchAction::NotFound);
}
