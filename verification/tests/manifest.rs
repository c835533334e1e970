use cargo_hack::manifest::{
    change_plan, manifest_features, manifest_members, manifest_without_dev_deps, manifest_without_private, package_fields,
    private_member_edits, read_manifest, FeaturesField, MemberChange, PublishField, TextField,
};

#[test]
fn no_dev_deps_changes_every_member() {
    let members = vec![(true, false), (false, true), (false, false)];
    let plan = change_plan(&members, true, false).unwrap();
    assert_eq!(plan.members, vec![MemberChange::RemoveDevDeps; 3]);
    assert_eq!(plan.root, Some(0));
    assert!(!plan.rewrite_root);
}

#[test]
fn no_private_drops_private_members_and_rewrites_root() {
    let members = vec![(true, false), (false, true), (false, false)];
    let plan = change_plan(&members, true, true).unwrap();
    assert_eq!(plan.members, vec![MemberChange::Keep, MemberChange::DropPrivate, MemberChange::RemoveDevDeps]);
    assert_eq!(plan.root, Some(0));
    assert!(plan.rewrite_root && plan.root_remove_dev_deps && plan.root_remove_private);

    // a virtual workspace: the root manifest is no member's
    let members = vec![(false, true), (false, false)];
    let plan = change_plan(&members, false, true).unwrap();
    assert_eq!(plan.members, vec![MemberChange::DropPrivate, MemberChange::Keep]);
    assert_eq!(plan.root, None);
    assert!(plan.rewrite_root && !plan.root_remove_dev_deps && plan.root_remove_private);

    // nothing private: the root manifest is only rewritten for its dev-dependencies
    let members = vec![(false, false)];
    let plan = change_plan(&members, false, true).unwrap();
    assert!(!plan.rewrite_root);
}

#[test]
fn private_root_is_refused() {
    let members = vec![(false, false), (true, true)];
    let err = change_plan(&members, false, true).unwrap_err();
    assert_eq!(err.message(), "--no-private is not supported yet with workspace with private root crate");
    // without --no-private it is no matter
    assert!(change_plan(&members, true, false).is_ok());
}

#[test]
fn private_members_leave_the_member_list_or_go_to_exclude() {
    // members: "a" (private crate 1), 42 (no path), "b" (no private crate),
    // "c" (private crate 0 and 1; 1 is already found)
    let is_path = vec![true, false, true, true];
    let same = vec![
        vec![false, true, false],
        vec![false, false, false],
        vec![false, false, false],
        vec![true, true, false],
    ];
    let (removed, left) = private_member_edits(&is_path, &same, 3);
    assert_eq!(removed, vec![0, 3]);
    assert_eq!(left, vec![2]);
    let (removed, left) = private_member_edits(&vec![], &vec![], 2);
    assert!(removed.is_empty());
    assert_eq!(left, vec![0, 1]);
}

#[test]
fn package_fields_by_cargo_version() {
    assert_eq!(package_fields(30, None).unwrap_err(), "package");
    assert_eq!(package_fields(30, Some((PublishField::Missing, TextField::Missing))).unwrap(), (Some(true), Some(None)));
    assert_eq!(
        package_fields(30, Some((PublishField::Array(true), TextField::Text("1.56".into())))).unwrap(),
        (Some(false), Some(Some("1.56".to_string())))
    );
    assert_eq!(package_fields(30, Some((PublishField::Bool(false), TextField::Missing))).unwrap().0, Some(false));
    assert_eq!(package_fields(30, Some((PublishField::Other, TextField::Missing))).unwrap_err(), "publish");
    assert_eq!(package_fields(45, Some((PublishField::Other, TextField::Other))).unwrap_err(), "rust-version");
    assert_eq!(package_fields(60, Some((PublishField::Other, TextField::Other))).unwrap(), (None, None));
}

#[test]
fn features_table_is_read() {
    assert!(manifest_features(&FeaturesField::Missing).unwrap().entries().is_empty());
    assert_eq!(manifest_features(&FeaturesField::NotTable).unwrap_err(), "features");
    let table = FeaturesField::Table(vec![
        ("b".to_string(), Some(vec![Some("a".to_string()), None, Some("dep:x".to_string())])),
        ("a".to_string(), Some(vec![])),
    ]);
    let m = manifest_features(&table).unwrap();
    let got: Vec<(String, Vec<String>)> = m.entries().iter().map(|(k, v)| (k.clone(), v.clone())).collect();
    assert_eq!(got, vec![
        ("a".to_string(), vec![]),
        ("b".to_string(), vec!["a".to_string(), "dep:x".to_string()]),
    ]);
    let bad = FeaturesField::Table(vec![("a".to_string(), Some(vec![])), ("b".to_string(), None)]);
    assert_eq!(manifest_features(&bad).unwrap_err(), "features");
}

#[test]
fn manifest_is_read_with_toml_edit() {
    let raw = "[package]\nname = \"x\"\npublish = false\nrust-version = \"1.60\"\n\n[features]\ndefault = [\"a\"]\na = []\n";
    let info = read_manifest(raw, "x/Cargo.toml", 30).unwrap();
    assert_eq!(info.publish, Some(false));
    assert_eq!(info.rust_version, Some(Some("1.60".to_string())));
    let names: Vec<String> = info.features.entries().iter().map(|(k, _)| k.clone()).collect();
    assert_eq!(names, vec!["a".to_string(), "default".to_string()]);
    let info = read_manifest(raw, "x/Cargo.toml", 60).unwrap();
    assert_eq!((info.publish, info.rust_version), (None, None));
    assert_eq!(
        read_manifest("[lib]\n", "y/Cargo.toml", 60).unwrap_err().message(),
        "failed to parse `package` field from manifest `y/Cargo.toml`"
    );
    assert_eq!(
        read_manifest("[package]\nfeatures = 1\n[features]\na = 1\n", "z/Cargo.toml", 60).unwrap_err().message(),
        "failed to parse `features` field from manifest `z/Cargo.toml`"
    );
    assert!(read_manifest("[package", "w/Cargo.toml", 60)
        .unwrap_err()
        .message()
        .starts_with("failed to parse manifest `w/Cargo.toml` as toml: "));
}

#[test]
fn dev_dependencies_are_removed_everywhere() {
    let raw = "[package]\nname = \"x\"\n\n[dependencies]\na = \"1\"\n\n[dev-dependencies]\nb = \"1\"\n\n[target.'cfg(unix)'.dev-dependencies]\nc = \"1\"\n\n[target.'cfg(unix)'.dependencies]\nd = \"1\"\n";
    let out = manifest_without_dev_deps(raw).unwrap();
    assert!(!out.contains("dev-dependencies"), "{out}");
    assert!(out.contains("[dependencies]\na = \"1\""));
    assert!(out.contains("d = \"1\""));
    // dotted keys and inline tables
    let out = manifest_without_dev_deps("dev-dependencies = { b = \"1\" }\ntarget.x.dev-dependencies.c = \"1\"\n[package]\nname = \"x\"\n").unwrap();
    assert!(!out.contains("dev-dependencies"), "{out}");
    assert!(manifest_without_dev_deps("[a").is_err());
}

#[test]
fn private_crates_leave_the_workspace() {
    let raw = "[workspace]\nmembers = [\"a\", \"b\", \"c\"]\n";
    assert_eq!(
        manifest_members(raw).unwrap(),
        vec![Some("a".to_string()), Some("b".to_string()), Some("c".to_string())]
    );
    // private crate 0 is member "b"; private crate 1 is no member
    let same = vec![vec![false, false], vec![true, false], vec![false, false]];
    let dirs = vec!["/ws/b".to_string(), "/ws/p".to_string()];
    let out = manifest_without_private(raw, &same, &dirs).unwrap();
    assert!(out.contains("members = [\"a\", \"c\"]"), "{out}");
    assert!(out.contains("exclude = [\"/ws/p\"]"), "{out}");
    // an exclude array is extended
    let raw = "[workspace]\nmembers = [\"a\"]\nexclude = [\"q\"]\n";
    let out = manifest_without_private(raw, &vec![vec![false]], &vec!["/ws/p".to_string()]).unwrap();
    assert!(out.contains("members = [\"a\"]"), "{out}");
    assert!(out.contains("\"q\"") && out.contains("\"/ws/p\""), "{out}");
    // without a workspace table nothing changes
    let raw = "[package]\nname = \"x\"\n";
    assert_eq!(manifest_without_private(raw, &vec![], &vec!["/ws/p".to_string()]).unwrap(), raw);
}
