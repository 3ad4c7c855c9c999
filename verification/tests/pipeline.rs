use cargo_localize::errors::LocalizeError;
use cargo_localize::graph::GraphView;
use cargo_localize::graph::ResolvedPackage;
use cargo_localize::graph::find_package_for_dependency;
use cargo_localize::graph::is_workspace_package;
use cargo_localize::graph::vendor_dir_name;
use cargo_localize::locate::CacheDir;
use cargo_localize::locate::CacheRoot;
use cargo_localize::locate::find_crate_source;
use cargo_localize::paths::common_prefix;
use cargo_localize::paths::join_path;
use cargo_localize::paths::path_starts_with;
use cargo_localize::paths::relative_path;
use cargo_localize::vendor::VendorDecision;
use cargo_localize::vendor::vendor_manifest_candidates;
use cargo_localize::vendor::vendor_step;

fn vs(xs: &[&str]) -> Vec<String> {
    xs.iter().map(|x| x.to_string()).collect()
}

fn pkg(name: &str, version: &str, features: &[&str], manifest_path: &[&str]) -> ResolvedPackage {
    ResolvedPackage {
        name: name.to_string(),
        version: version.to_string(),
        features: vs(features),
        manifest_path: vs(manifest_path),
    }
}

fn cache_dir(name: &str, path: &[&str]) -> CacheDir {
    CacheDir { name: name.to_string(), path: vs(path) }
}

#[test]
fn relative_path_between_sibling_directories() {
    let from = vs(&["home", "proj", "a"]);
    let to = vs(&["home", "proj", "b"]);
    assert_eq!(relative_path(&from, &to), vs(&["..", "b"]));
}

#[test]
fn relative_path_into_a_subdirectory() {
    let from = vs(&["home", "proj"]);
    let to = vs(&["home", "proj", "3rd-party", "foo-1.2.3"]);
    assert_eq!(relative_path(&from, &to), vs(&["3rd-party", "foo-1.2.3"]));
}

#[test]
fn relative_path_between_identical_directories_is_empty() {
    let d = vs(&["home", "proj"]);
    assert_eq!(relative_path(&d, &d), Vec::<String>::new());
}

#[test]
fn join_path_renders_components() {
    assert_eq!(join_path(&vs(&["..", "foo-1.2.3"])), "../foo-1.2.3");
    assert_eq!(join_path(&vs(&["a"])), "a");
    assert_eq!(join_path(&Vec::new()), "");
}

#[test]
fn common_prefix_counts_shared_components() {
    assert_eq!(common_prefix(&vs(&["a", "b", "c"]), &vs(&["a", "b", "d"])), 2);
    assert_eq!(common_prefix(&vs(&["a"]), &vs(&["b"])), 0);
}

#[test]
fn path_prefix_test_is_exact() {
    assert!(path_starts_with(&vs(&["home", "proj", "x"]), &vs(&["home", "proj"])));
    assert!(!path_starts_with(&vs(&["home"]), &vs(&["home", "proj"])));
    assert!(!path_starts_with(&vs(&["home", "other", "x"]), &vs(&["home", "proj"])));
}

#[test]
fn vendor_dir_name_is_name_dash_version() {
    assert_eq!(vendor_dir_name(&"foo".to_string(), &"1.2.3".to_string()), "foo-1.2.3");
}

#[test]
fn workspace_membership_is_a_path_containment_test() {
    let root = vs(&["home", "proj"]);
    let member = pkg("proj", "0.1.0", &[], &["home", "proj", "Cargo.toml"]);
    let outside = pkg("foo", "1.2.3", &[], &["home", "cache", "foo-1.2.3", "Cargo.toml"]);
    assert!(is_workspace_package(&member, &root));
    assert!(!is_workspace_package(&outside, &root));
}

#[test]
fn graph_lookup_takes_the_first_match_and_honors_renames() {
    let graph = GraphView {
        packages: vec![
            pkg("foo", "1.0.0", &["a"], &["c", "foo-1.0.0", "Cargo.toml"]),
            pkg("foo", "2.0.0", &["b"], &["c", "foo-2.0.0", "Cargo.toml"]),
            pkg("bar", "0.1.0", &[], &["c", "bar-0.1.0", "Cargo.toml"]),
        ],
        workspace_root: vs(&["home", "proj"]),
    };
    assert_eq!(find_package_for_dependency(&graph, &"foo".to_string(), None), Some(0));
    assert_eq!(
        find_package_for_dependency(&graph, &"alias".to_string(), Some(&"bar".to_string())),
        Some(2)
    );
    assert_eq!(find_package_for_dependency(&graph, &"baz".to_string(), None), None);
}

#[test]
fn cache_search_returns_the_first_match_across_roots() {
    let roots = vec![
        CacheRoot {
            dirs: vec![
                cache_dir("other-0.1.0", &["r1", "other-0.1.0"]),
                cache_dir("foo-1.2.3", &["r1", "foo-1.2.3"]),
            ],
        },
        CacheRoot { dirs: vec![cache_dir("foo-1.2.3", &["r2", "foo-1.2.3"])] },
    ];
    let found = find_crate_source(&roots, &"foo".to_string(), &"1.2.3".to_string());
    assert_eq!(found, Some(vs(&["r1", "foo-1.2.3"])));
}

#[test]
fn cache_search_fails_only_when_no_root_has_the_key() {
    let roots = vec![CacheRoot { dirs: vec![cache_dir("foo-1.2.2", &["r1", "foo-1.2.2"])] }];
    assert_eq!(find_crate_source(&roots, &"foo".to_string(), &"1.2.3".to_string()), None);
}

#[test]
fn vendor_step_skips_workspace_members() {
    let member = pkg("proj", "0.1.0", &[], &["home", "proj", "Cargo.toml"]);
    let root = vs(&["home", "proj"]);
    let cache: Vec<CacheRoot> = Vec::new();
    let r = vendor_step(&member, &root, &cache, false);
    assert_eq!(r, Ok(VendorDecision::SkipWorkspace));
}

#[test]
fn vendor_step_aborts_when_the_source_cannot_be_located() {
    let dep = pkg("foo", "1.2.3", &[], &["home", "cache", "foo-1.2.3", "Cargo.toml"]);
    let root = vs(&["home", "proj"]);
    let cache = vec![CacheRoot { dirs: Vec::new() }];
    let r = vendor_step(&dep, &root, &cache, false);
    assert_eq!(
        r,
        Err(LocalizeError::Locate { name: "foo".to_string(), version: "1.2.3".to_string() })
    );
}

#[test]
fn vendor_step_skips_an_existing_vendor_directory() {
    let dep = pkg("foo", "1.2.3", &[], &["home", "cache", "foo-1.2.3", "Cargo.toml"]);
    let root = vs(&["home", "proj"]);
    let cache =
        vec![CacheRoot { dirs: vec![cache_dir("foo-1.2.3", &["home", "cache", "foo-1.2.3"])] }];
    let r = vendor_step(&dep, &root, &cache, true);
    assert_eq!(r, Ok(VendorDecision::AlreadyVendored { dest_name: "foo-1.2.3".to_string() }));
}

#[test]
fn vendor_step_copies_a_located_source() {
    let dep = pkg("foo", "1.2.3", &[], &["home", "cache", "foo-1.2.3", "Cargo.toml"]);
    let root = vs(&["home", "proj"]);
    let cache =
        vec![CacheRoot { dirs: vec![cache_dir("foo-1.2.3", &["home", "cache", "foo-1.2.3"])] }];
    let r = vendor_step(&dep, &root, &cache, false);
    assert_eq!(
        r,
        Ok(VendorDecision::Copy {
            source: vs(&["home", "cache", "foo-1.2.3"]),
            dest_name: "foo-1.2.3".to_string(),
        })
    );
}

#[test]
fn vendor_candidates_exclude_workspace_members() {
    let graph = GraphView {
        packages: vec![
            pkg("proj", "0.1.0", &[], &["home", "proj", "Cargo.toml"]),
            pkg("foo", "1.2.3", &[], &["home", "cache", "foo-1.2.3", "Cargo.toml"]),
            pkg("bar", "0.2.0", &[], &["home", "cache", "bar-0.2.0", "Cargo.toml"]),
        ],
        workspace_root: vs(&["home", "proj"]),
    };
    assert_eq!(vendor_manifest_candidates(&graph), vs(&["foo-1.2.3", "bar-0.2.0"]));
}

#[test]
fn error_messages_are_stage_labeled() {
    let e = LocalizeError::Locate { name: "foo".to_string(), version: "1.2.3".to_string() };
    assert_eq!(e.message(), "crate not found in any cache root: foo-1.2.3");
    assert_eq!(
        LocalizeError::Configuration("bad path".to_string()).message(),
        "invalid project configuration: bad path"
    );
    assert_eq!(
        LocalizeError::Resolution("no resolve".to_string()).message(),
        "no resolution data: no resolve"
    );
    assert_eq!(
        LocalizeError::Copy("disk full".to_string()).message(),
        "failed to copy dependency sources: disk full"
    );
    assert_eq!(
        LocalizeError::Manifest("parse error".to_string()).message(),
        "failed to rewrite manifest: parse error"
    );
}
