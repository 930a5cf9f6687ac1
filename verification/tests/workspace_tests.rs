use changelogger_prdoc::{PathIndex, WorkspaceCrate, WorkspaceInfo, WorkspacePackage};
use std::path::PathBuf;

#[test]
fn find_crate_for_path_matches_longest_prefix() {
    let mut info = WorkspaceInfo {
        root: PathBuf::from("/test"),
        crates: vec![],
        crate_by_path: PathIndex::new(),
    };
    info.crate_by_path
        .insert("/test/packages/core".to_string(), "core".to_string());
    info.crate_by_path
        .insert("/test/packages/core/sub".to_string(), "sub".to_string());

    assert_eq!(
        info.find_crate_for_path("/test/packages/core/sub/foo.rs"),
        Some("sub".to_string())
    );
    assert_eq!(
        info.find_crate_for_path("/test/packages/core/src/lib.rs"),
        Some("core".to_string())
    );
    assert_eq!(info.find_crate_for_path("/test/other/file.rs"), None);
}

#[test]
fn path_index_insert_replaces_and_reports_previous() {
    let mut index = PathIndex::new();
    assert_eq!(index.insert("a".to_string(), "1".to_string()), None);
    assert_eq!(index.insert("b".to_string(), "2".to_string()), None);
    assert_eq!(index.insert("a".to_string(), "3".to_string()), Some("1".to_string()));
    let info = WorkspaceInfo { root: PathBuf::from("/"), crates: vec![], crate_by_path: index };
    assert_eq!(info.find_crate_for_path("a/x"), Some("3".to_string()));
    assert_eq!(info.find_crate_for_path("b"), Some("2".to_string()));
}

#[test]
fn empty_directory_holds_every_file() {
    let mut index = PathIndex::new();
    index.insert(String::new(), "root".to_string());
    let info = WorkspaceInfo { root: PathBuf::from("/"), crates: vec![], crate_by_path: index };
    assert_eq!(info.find_crate_for_path("anything"), Some("root".to_string()));
}

#[test]
fn crate_names_are_sorted() {
    let c = |n: &str| WorkspaceCrate {
        name: n.to_string(),
        manifest_path: PathBuf::from("Cargo.toml"),
        publish: true,
    };
    let info = WorkspaceInfo {
        root: PathBuf::from("/"),
        crates: vec![c("zeta"), c("alpha"), c("Beta"), c("alpha"), c("alp")],
        crate_by_path: PathIndex::new(),
    };
    assert_eq!(info.crate_names(), vec!["Beta", "alp", "alpha", "alpha", "zeta"]);
}

#[test]
fn workspace_from_packages() {
    let pkg = |name: &str, dir: &str, publish: Option<Vec<String>>| WorkspacePackage {
        name: name.to_string(),
        manifest_path: PathBuf::from(format!("/ws/{dir}/Cargo.toml")),
        publish,
        dir: dir.to_string(),
    };
    let info = WorkspaceInfo::from_packages(
        PathBuf::from("/ws"),
        vec![
            pkg("core", "/packages/core", None),
            pkg("cli", "packages/cli", Some(vec![])),
            pkg("web", "//packages/web", Some(vec!["crates-io".to_string()])),
        ],
    );
    assert_eq!(info.crates.len(), 3);
    assert_eq!(info.crates[0].name, "core");
    assert!(info.crates[0].publish);
    assert!(!info.crates[1].publish);
    assert!(info.crates[2].publish);
    assert_eq!(info.crates[1].manifest_path, PathBuf::from("/ws/packages/cli/Cargo.toml"));
    assert_eq!(info.find_crate_for_path("packages/web/src/lib.rs"), Some("web".to_string()));
    assert_eq!(info.find_crate_for_path("packages/core/x.rs"), Some("core".to_string()));
    assert_eq!(info.find_crate_for_path("/packages/core/x.rs"), None);
    assert_eq!(info.crate_names(), vec!["cli", "core", "web"]);
}

#[test]
fn a_crate_directory_finds_its_own_crate() {
    let mut index = PathIndex::new();
    index.insert("packages".to_string(), "outer".to_string());
    index.insert("packages/core".to_string(), "core".to_string());
    index.insert("packages/core/deep".to_string(), "deep".to_string());
    let info = WorkspaceInfo { root: PathBuf::from("/"), crates: vec![], crate_by_path: index };
    assert_eq!(info.find_crate_for_path("packages/core"), Some("core".to_string()));
    assert_eq!(info.find_crate_for_path("packages/cor"), Some("outer".to_string()));
}
