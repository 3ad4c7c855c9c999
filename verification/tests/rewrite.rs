use cargo_localize::graph::GraphView;
use cargo_localize::graph::ResolvedPackage;
use cargo_localize::manifest::DependencyEntry;
use cargo_localize::manifest::EntryOutcome;
use cargo_localize::manifest::Field;
use cargo_localize::manifest::FieldValue;
use cargo_localize::manifest::ManifestEntry;
use cargo_localize::manifest::ManifestModel;
use cargo_localize::manifest::ManifestSection;
use cargo_localize::manifest::SectionKind;
use cargo_localize::manifest::VendorSet;
use cargo_localize::manifest::get_package_name_from_table;
use cargo_localize::manifest::localize_fields;
use cargo_localize::manifest::needs_backup;
use cargo_localize::manifest::rewrite_entry;
use cargo_localize::manifest::update_dependencies;
use cargo_localize::manifest::update_single_manifest;

fn vs(xs: &[&str]) -> Vec<String> {
    xs.iter().map(|x| x.to_string()).collect()
}

fn pkg(name: &str, version: &str, features: &[&str], manifest_path: &[&str]) -> ResolvedPackage {
    ResolvedPackage {
        name: name.to_string(),
        version: version.to_string(),
        features: vs(features),
        manifest_path: vs(manifest_path),
    }
}

fn sample_graph() -> GraphView {
    GraphView {
        packages: vec![
            pkg("proj", "0.1.0", &[], &["home", "proj", "Cargo.toml"]),
            pkg(
                "foo",
                "1.2.3",
                &["x", "y"],
                &["home", "cache", "src", "reg", "foo-1.2.3", "Cargo.toml"],
            ),
            pkg(
                "bar",
                "0.2.0",
                &[],
                &["home", "cache", "src", "reg", "bar-0.2.0", "Cargo.toml"],
            ),
        ],
        workspace_root: vs(&["home", "proj"]),
    }
}

fn sample_vendored() -> VendorSet {
    VendorSet { names: vs(&["foo-1.2.3", "bar-0.2.0"]) }
}

fn field_text(key: &str, value: &str) -> Field {
    Field { key: key.to_string(), value: FieldValue::Text(value.to_string()) }
}

fn keys_of(fields: &[Field]) -> Vec<String> {
    fields.iter().map(|f| f.key.clone()).collect()
}

fn value_of<'a>(fields: &'a [Field], key: &str) -> Option<&'a FieldValue> {
    fields.iter().find(|f| f.key == key).map(|f| &f.value)
}

#[test]
fn shorthand_becomes_inline_record_with_path_and_features() {
    let graph = sample_graph();
    let vendored = sample_vendored();
    let manifest_dir = vs(&["home", "proj"]);
    let vendor_root = vs(&["home", "proj", "3rd-party"]);
    let entry = DependencyEntry::Shorthand("1.0".to_string());
    let (out, outcome) =
        rewrite_entry(&"foo".to_string(), &entry, &graph, &vendored, &manifest_dir, &vendor_root);
    assert_eq!(outcome, EntryOutcome::Updated);
    match out {
        DependencyEntry::InlineRecord(fields) => {
            assert_eq!(keys_of(&fields), vs(&["path", "features"]));
            assert_eq!(
                value_of(&fields, "path"),
                Some(&FieldValue::Text("3rd-party/foo-1.2.3".to_string()))
            );
            assert_eq!(value_of(&fields, "features"), Some(&FieldValue::List(vs(&["x", "y"]))));
        }
        other => panic!("expected an inline record, got {:?}", other),
    }
}

#[test]
fn record_loses_remote_source_fields_and_gains_path_and_features() {
    let graph = sample_graph();
    let vendored = sample_vendored();
    let manifest_dir = vs(&["home", "proj"]);
    let vendor_root = vs(&["home", "proj", "3rd-party"]);
    let entry = DependencyEntry::BlockRecord(vec![
        field_text("version", "1.0"),
        field_text("git", "ssh://somewhere/foo"),
        field_text("branch", "main"),
        Field { key: "optional".to_string(), value: FieldValue::Opaque(7) },
    ]);
    let (out, outcome) =
        rewrite_entry(&"foo".to_string(), &entry, &graph, &vendored, &manifest_dir, &vendor_root);
    assert_eq!(outcome, EntryOutcome::Updated);
    match out {
        DependencyEntry::BlockRecord(fields) => {
            for k in ["version", "git", "branch", "tag", "rev", "registry"] {
                assert!(value_of(&fields, k).is_none(), "field {} should be gone", k);
            }
            assert_eq!(keys_of(&fields), vs(&["optional", "path", "features"]));
            assert_eq!(
                value_of(&fields, "path"),
                Some(&FieldValue::Text("3rd-party/foo-1.2.3".to_string()))
            );
            assert_eq!(value_of(&fields, "features"), Some(&FieldValue::List(vs(&["x", "y"]))));
            assert_eq!(value_of(&fields, "optional"), Some(&FieldValue::Opaque(7)));
        }
        other => panic!("expected a block record, got {:?}", other),
    }
}

#[test]
fn empty_feature_set_writes_no_features_and_keeps_an_old_one() {
    let graph = sample_graph();
    let vendored = sample_vendored();
    let manifest_dir = vs(&["home", "proj"]);
    let vendor_root = vs(&["home", "proj", "3rd-party"]);
    let entry = DependencyEntry::InlineRecord(vec![
        field_text("version", "0.2"),
        Field { key: "features".to_string(), value: FieldValue::List(vs(&["old"])) },
    ]);
    let (out, outcome) =
        rewrite_entry(&"bar".to_string(), &entry, &graph, &vendored, &manifest_dir, &vendor_root);
    assert_eq!(outcome, EntryOutcome::Updated);
    match out {
        DependencyEntry::InlineRecord(fields) => {
            assert_eq!(keys_of(&fields), vs(&["features", "path"]));
            assert_eq!(value_of(&fields, "features"), Some(&FieldValue::List(vs(&["old"]))));
            assert_eq!(
                value_of(&fields, "path"),
                Some(&FieldValue::Text("3rd-party/bar-0.2.0".to_string()))
            );
        }
        other => panic!("expected an inline record, got {:?}", other),
    }
}

#[test]
fn rename_field_drives_the_lookup() {
    let graph = sample_graph();
    let vendored = sample_vendored();
    let manifest_dir = vs(&["home", "proj"]);
    let vendor_root = vs(&["home", "proj", "3rd-party"]);
    let entry = DependencyEntry::InlineRecord(vec![
        field_text("package", "foo"),
        field_text("version", "1.0"),
    ]);
    let (out, outcome) = rewrite_entry(
        &"foo_alias".to_string(),
        &entry,
        &graph,
        &vendored,
        &manifest_dir,
        &vendor_root,
    );
    assert_eq!(outcome, EntryOutcome::Updated);
    match out {
        DependencyEntry::InlineRecord(fields) => {
            assert_eq!(value_of(&fields, "package"), Some(&FieldValue::Text("foo".to_string())));
            assert_eq!(
                value_of(&fields, "path"),
                Some(&FieldValue::Text("3rd-party/foo-1.2.3".to_string()))
            );
            assert!(value_of(&fields, "version").is_none());
        }
        other => panic!("expected an inline record, got {:?}", other),
    }
}

#[test]
fn unmatched_entry_is_left_unchanged() {
    let graph = sample_graph();
    let vendored = sample_vendored();
    let manifest_dir = vs(&["home", "proj"]);
    let vendor_root = vs(&["home", "proj", "3rd-party"]);
    let entry = DependencyEntry::Shorthand("1.0".to_string());
    let (out, outcome) = rewrite_entry(
        &"unknown".to_string(),
        &entry,
        &graph,
        &vendored,
        &manifest_dir,
        &vendor_root,
    );
    assert_eq!(outcome, EntryOutcome::NotInGraph);
    assert_eq!(out, DependencyEntry::Shorthand("1.0".to_string()));
}

#[test]
fn unvendored_entry_is_left_unchanged() {
    let graph = sample_graph();
    let vendored = VendorSet { names: Vec::new() };
    let manifest_dir = vs(&["home", "proj"]);
    let vendor_root = vs(&["home", "proj", "3rd-party"]);
    let entry = DependencyEntry::Shorthand("1.0".to_string());
    let (out, outcome) =
        rewrite_entry(&"foo".to_string(), &entry, &graph, &vendored, &manifest_dir, &vendor_root);
    assert_eq!(outcome, EntryOutcome::NotVendored);
    assert_eq!(out, DependencyEntry::Shorthand("1.0".to_string()));
}

#[test]
fn workspace_member_entry_is_never_modified() {
    let graph = sample_graph();
    let vendored = sample_vendored();
    let manifest_dir = vs(&["home", "proj"]);
    let vendor_root = vs(&["home", "proj", "3rd-party"]);
    let entry = DependencyEntry::Shorthand("0.1".to_string());
    let (out, outcome) =
        rewrite_entry(&"proj".to_string(), &entry, &graph, &vendored, &manifest_dir, &vendor_root);
    assert_eq!(outcome, EntryOutcome::NotVendored);
    assert_eq!(out, DependencyEntry::Shorthand("0.1".to_string()));
}

#[test]
fn other_entry_shapes_pass_through() {
    let graph = sample_graph();
    let vendored = sample_vendored();
    let manifest_dir = vs(&["home", "proj"]);
    let vendor_root = vs(&["home", "proj", "3rd-party"]);
    let entry = DependencyEntry::Other(42);
    let (out, outcome) =
        rewrite_entry(&"foo".to_string(), &entry, &graph, &vendored, &manifest_dir, &vendor_root);
    assert_eq!(outcome, EntryOutcome::OtherShape);
    assert_eq!(out, DependencyEntry::Other(42));
}

#[test]
fn rewriting_twice_changes_nothing_more() {
    let graph = sample_graph();
    let vendored = sample_vendored();
    let manifest_dir = vs(&["home", "proj"]);
    let vendor_root = vs(&["home", "proj", "3rd-party"]);
    let entries = vec![
        DependencyEntry::Shorthand("1.0".to_string()),
        DependencyEntry::BlockRecord(vec![field_text("version", "1.0"), field_text("git", "g")]),
        DependencyEntry::InlineRecord(vec![field_text("version", "0.2")]),
    ];
    let keys = ["foo", "foo", "bar"];
    for (key, entry) in keys.iter().zip(entries.into_iter()) {
        let (once, _) = rewrite_entry(
            &key.to_string(),
            &entry,
            &graph,
            &vendored,
            &manifest_dir,
            &vendor_root,
        );
        let (twice, outcome) = rewrite_entry(
            &key.to_string(),
            &once,
            &graph,
            &vendored,
            &manifest_dir,
            &vendor_root,
        );
        assert_eq!(outcome, EntryOutcome::Updated);
        assert_eq!(twice, once);
    }
}

#[test]
fn update_dependencies_visits_every_entry_in_order() {
    let graph = sample_graph();
    let vendored = sample_vendored();
    let manifest_dir = vs(&["home", "proj"]);
    let vendor_root = vs(&["home", "proj", "3rd-party"]);
    let mut entries = vec![
        ManifestEntry {
            key: "foo".to_string(),
            entry: DependencyEntry::Shorthand("1.0".to_string()),
        },
        ManifestEntry {
            key: "unknown".to_string(),
            entry: DependencyEntry::Shorthand("2.0".to_string()),
        },
    ];
    update_dependencies(&mut entries, &graph, &vendored, &manifest_dir, &vendor_root);
    assert_eq!(entries.len(), 2);
    assert_eq!(entries[0].key, "foo");
    assert!(matches!(entries[0].entry, DependencyEntry::InlineRecord(_)));
    assert_eq!(entries[1].key, "unknown");
    assert_eq!(entries[1].entry, DependencyEntry::Shorthand("2.0".to_string()));
}

#[test]
fn update_single_manifest_covers_root_and_target_sections() {
    let graph = sample_graph();
    let vendored = sample_vendored();
    let manifest_dir = vs(&["home", "proj"]);
    let vendor_root = vs(&["home", "proj", "3rd-party"]);
    let mut doc = ManifestModel {
        sections: vec![
            ManifestSection {
                target: None,
                kind: SectionKind::Normal,
                entries: vec![ManifestEntry {
                    key: "foo".to_string(),
                    entry: DependencyEntry::Shorthand("1.0".to_string()),
                }],
            },
            ManifestSection {
                target: Some("cfg(windows)".to_string()),
                kind: SectionKind::Dev,
                entries: vec![ManifestEntry {
                    key: "bar".to_string(),
                    entry: DependencyEntry::InlineRecord(vec![field_text("version", "0.2")]),
                }],
            },
        ],
    };
    update_single_manifest(&mut doc, &graph, &vendored, &manifest_dir, &vendor_root);
    assert_eq!(doc.sections.len(), 2);
    assert_eq!(doc.sections[0].target, None);
    assert_eq!(doc.sections[0].kind, SectionKind::Normal);
    assert!(matches!(doc.sections[0].entries[0].entry, DependencyEntry::InlineRecord(_)));
    assert_eq!(doc.sections[1].target, Some("cfg(windows)".to_string()));
    assert_eq!(doc.sections[1].kind, SectionKind::Dev);
    match &doc.sections[1].entries[0].entry {
        DependencyEntry::InlineRecord(fields) => {
            assert_eq!(
                value_of(fields, "path"),
                Some(&FieldValue::Text("3rd-party/bar-0.2.0".to_string()))
            );
            assert!(value_of(fields, "version").is_none());
        }
        other => panic!("expected an inline record, got {:?}", other),
    }
}

#[test]
fn vendored_manifest_gets_parent_relative_paths() {
    let graph = sample_graph();
    let vendored = sample_vendored();
    let manifest_dir = vs(&["home", "proj", "3rd-party", "bar-0.2.0"]);
    let vendor_root = vs(&["home", "proj", "3rd-party"]);
    let entry = DependencyEntry::Shorthand("1.0".to_string());
    let (out, _) =
        rewrite_entry(&"foo".to_string(), &entry, &graph, &vendored, &manifest_dir, &vendor_root);
    match out {
        DependencyEntry::InlineRecord(fields) => {
            assert_eq!(
                value_of(&fields, "path"),
                Some(&FieldValue::Text("../foo-1.2.3".to_string()))
            );
        }
        other => panic!("expected an inline record, got {:?}", other),
    }
}

#[test]
fn localize_fields_overwrites_a_prior_path() {
    let fields = vec![field_text("path", "../somewhere/else"), field_text("version", "1.0")];
    let out = localize_fields(&fields, &"3rd-party/foo-1.2.3".to_string(), &vs(&["x"]));
    assert_eq!(keys_of(&out), vs(&["path", "features"]));
    assert_eq!(
        value_of(&out, "path"),
        Some(&FieldValue::Text("3rd-party/foo-1.2.3".to_string()))
    );
}

#[test]
fn package_rename_is_read_only_from_a_string_value() {
    let fields = vec![field_text("package", "foo")];
    assert_eq!(get_package_name_from_table(&fields), Some("foo".to_string()));
    let fields = vec![Field { key: "package".to_string(), value: FieldValue::List(vs(&["x"])) }];
    assert_eq!(get_package_name_from_table(&fields), None);
    let fields = vec![field_text("version", "1.0")];
    assert_eq!(get_package_name_from_table(&fields), None);
}

#[test]
fn backup_happens_only_once() {
    assert!(needs_backup(false));
    assert!(!needs_backup(true));
}
