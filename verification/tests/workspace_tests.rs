use bolt::cli::uninstall_removals;
use bolt::engine::{
    check_installable, extended_path, file_retry_delay_ms, full_command, git_cache_name,
    install_groups, install_step, lifecycle_scripts, script_banner, shim_scripts, store_entry_name,
    InstallError, InstallStep,
};
use bolt::json::JsonValue;
use bolt::package::manifest::PackageJson;
use bolt::resolver::ResolvedNode;
use bolt::strmap::StrMap;
use bolt::workspace::{
    classify_pattern, find_workspace_member, link_location, member_name, workspace_patterns,
    WorkspaceMember, WorkspacePattern,
};

#[test]
fn workspace_pattern_lists() {
    let mut m = PackageJson::default();
    m.workspaces = Some(JsonValue::Array(vec![
        JsonValue::Str("packages/*".to_string()),
        JsonValue::Null,
        JsonValue::Str("tools/cli".to_string()),
    ]));
    assert_eq!(workspace_patterns(&m), vec!["packages/*".to_string(), "tools/cli".to_string()]);
    let mut o = PackageJson::default();
    o.workspaces = Some(JsonValue::Object(vec![(
        "packages".to_string(),
        JsonValue::Array(vec![JsonValue::Str("apps/*".to_string())]),
    )]));
    assert_eq!(workspace_patterns(&o), vec!["apps/*".to_string()]);
    assert!(workspace_patterns(&PackageJson::default()).is_empty());
}

#[test]
fn workspace_pattern_kinds() {
    match classify_pattern("packages/*/") {
        WorkspacePattern::Children { parent } => assert_eq!(parent, "packages"),
        _ => panic!("expected children"),
    }
    match classify_pattern("tools/cli/") {
        WorkspacePattern::Single { dir } => assert_eq!(dir, "tools/cli"),
        _ => panic!("expected single"),
    }
}

fn member(name: &str, path: &str) -> WorkspaceMember {
    WorkspaceMember { name: name.to_string(), path: path.to_string(), manifest: PackageJson::default() }
}

#[test]
fn finding_members() {
    let members = vec![member("pkg-a", "/repo/packages/pkg-a"), member("@s/pkg-b", "C:\\repo\\packages\\pkg-b")];
    assert_eq!(find_workspace_member(&members, "pkg-a").map(|m| m.name.clone()), Some("pkg-a".to_string()));
    assert_eq!(find_workspace_member(&members, "packages/pkg-b/").map(|m| m.name.clone()), Some("@s/pkg-b".to_string()));
    assert!(find_workspace_member(&members, "pkg-c").is_none());
    assert_eq!(member_name(&PackageJson::default(), "dir-name"), "dir-name");
}

#[test]
fn link_locations() {
    assert_eq!(link_location("@scope/name"), (Some("@scope".to_string()), "name".to_string()));
    assert_eq!(link_location("plain"), (None, "plain".to_string()));
}

fn node(path: &str, local: bool, url: &str) -> ResolvedNode {
    ResolvedNode {
        name: "n".to_string(),
        version: "1.0.0".to_string(),
        resolved_url: url.to_string(),
        integrity: String::new(),
        dev: false,
        optional: false,
        peer: false,
        is_local_file: local,
        local_source_path: None,
        dependencies: StrMap::new(),
        bin: None,
        has_install_script: false,
        engines: None,
        os: None,
        cpu: None,
        install_path: path.to_string(),
    }
}

#[test]
fn installs_go_shallow_first() {
    let mut m = StrMap::new();
    m.insert("node_modules/a/node_modules/b".to_string(), node("node_modules/a/node_modules/b", false, "u"));
    m.insert("node_modules/a".to_string(), node("node_modules/a", false, "u"));
    m.insert("node_modules/c".to_string(), node("node_modules/c", false, "u"));
    let groups = install_groups(&m);
    assert_eq!(groups.len(), 2);
    assert_eq!(groups[0], (1, vec!["node_modules/a".to_string(), "node_modules/c".to_string()]));
    assert_eq!(groups[1], (3, vec!["node_modules/a/node_modules/b".to_string()]));
    assert!(install_groups(&StrMap::new()).is_empty());
}

#[test]
fn install_helpers() {
    assert_eq!(store_entry_name("@scope/pkg", "1.0.0"), "@scope+pkg@1.0.0");
    let mut scripts = StrMap::new();
    scripts.insert("postinstall".to_string(), "node x".to_string());
    scripts.insert("preinstall".to_string(), "node y".to_string());
    scripts.insert("test".to_string(), "jest".to_string());
    assert_eq!(lifecycle_scripts(&Some(scripts)), vec!["preinstall".to_string(), "postinstall".to_string()]);
    assert!(lifecycle_scripts(&None).is_empty());
    assert!(check_installable(&node("node_modules/a", false, "")).is_err());
    assert!(check_installable(&node("node_modules/a", true, "")).is_ok());
    assert!(check_installable(&node("node_modules/a", false, "http://x")).is_ok());
    assert_eq!(file_retry_delay_ms(0), 15);
    assert_eq!(file_retry_delay_ms(3), 120);
    assert_eq!(git_cache_name("https://github.com/a/b.git").len(), 16);
}

#[test]
fn script_commands() {
    assert_eq!(full_command("my-cli", &[]), "my-cli");
    assert_eq!(full_command("my-cli", &["arg1".to_string(), "arg2".to_string()]), "my-cli arg1 arg2");
    assert_eq!(script_banner(&Some("app".to_string()), &None, "build"), "> app@ build");
    assert_eq!(extended_path("/p/node_modules/.bin", "/usr/bin", ":"), "/p/node_modules/.bin:/usr/bin");
}

#[test]
fn shims_point_at_target() {
    let (sh, cmd, ps1) = shim_scripts("../my-cli/bin/cli.js");
    assert!(sh.starts_with("#!/bin/sh\n"));
    assert!(sh.contains("exec node \"$basedir/../my-cli/bin/cli.js\" \"$@\""));
    assert!(cmd.contains("\"%dp0%\\..\\my-cli\\bin\\cli.js\" %*"));
    assert!(ps1.contains("& \"$exe\" \"$basedir/../my-cli/bin/cli.js\" $args"));
    assert_eq!(bolt::engine::shim_target("/p/node_modules/my-cli/bin/cli.js", "/p/node_modules/.bin"), "../my-cli/bin/cli.js");
}

#[test]
fn shim_target_text_forms() {
    assert_eq!(bolt::engine::shim_target_from(Some("..\\my-cli\\bin\\cli.js".to_string()), "/abs/cli.js"), "../my-cli/bin/cli.js");
    assert_eq!(bolt::engine::shim_target_from(None, "C:\\pkgs\\cli.js"), "C:/pkgs/cli.js");
    assert!(!bolt::engine::shim_target("/p/a\\b/cli.js", "/p/.bin").contains('\\'));
}

#[test]
fn install_steps() {
    let mut local = node("node_modules/a", true, "");
    local.local_source_path = Some("/src/a".to_string());
    assert!(matches!(install_step(&local, true), Ok(InstallStep::CopyLocal { source: Some(s) }) if s == "/src/a"));
    let mut scoped = node("node_modules/@s/p", false, "http://r/p.tgz");
    scoped.name = "@s/p".to_string();
    scoped.integrity = "sha512-abc".to_string();
    match install_step(&scoped, true) {
        Ok(InstallStep::Fetch { url, integrity, store }) => {
            assert_eq!(url, "http://r/p.tgz");
            assert_eq!(integrity, "sha512-abc");
            assert_eq!(store, Some("@s+p@1.0.0".to_string()));
        }
        _ => panic!("expected a download"),
    }
    assert!(matches!(install_step(&scoped, false), Ok(InstallStep::Fetch { store: None, .. })));
    match install_step(&node("node_modules/b", false, ""), false) {
        Err(InstallError::EmptyResolvedUrl { name, version }) => {
            assert_eq!(name, "n");
            assert_eq!(version, "1.0.0");
        }
        _ => panic!("expected an error"),
    }
}

#[test]
fn shim_targets_for_plain_paths() {
    assert_eq!(bolt::engine::shim_target("a/b/c.js", "a/.bin"), "../b/c.js");
    assert_eq!(bolt::engine::shim_target("/x/y", "/x/y"), "");
    assert_eq!(bolt::engine::shim_target("/x/y", "/x/y/z/w"), "../..");
}

#[test]
fn uninstall_removes_unneeded_top_level_dirs() {
    let mut resolved = StrMap::new();
    resolved.insert("node_modules/shared".to_string(), node("node_modules/shared", false, "u"));
    let packages = vec!["lodash".to_string(), "shared".to_string(), "@scope/pkg".to_string()];
    assert_eq!(
        uninstall_removals(&packages, &resolved),
        vec!["node_modules/lodash".to_string(), "node_modules/@scope/pkg".to_string()]
    );
}
