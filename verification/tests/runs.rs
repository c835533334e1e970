use cargo_hack::feature_map::FeatureMap;
use cargo_hack::features::{Feature, Features};
use cargo_hack::metadata::{Dependency, Package, PackageId};
use cargo_hack::runs::{
    applied_features, determine_kind, exec_on_package, feature_warnings, skipped_groups, KeepGoing, Kind, LogGroup, Partition, Progress, RunOptions,
};

fn options() -> RunOptions {
    RunOptions {
        ignore_private: false,
        each_feature: false,
        feature_powerset: false,
        exclude_features: vec![],
        group_features: vec![],
        include_features: vec![],
        optional_deps: None,
        include_deps_features: false,
        ignore_unknown_features: false,
        exclude_no_default_features: false,
        exclude_all_features: false,
        no_default_features: false,
        depth: None,
        at_least_one_of: vec![],
        mutually_exclusive_features: vec![],
    }
}

fn package(features: &[(&str, &[&str])]) -> (Package, FeatureMap) {
    let mut m = FeatureMap::new();
    for (k, v) in features {
        m.insert(k.to_string(), v.iter().map(|s| s.to_string()).collect());
    }
    let mut m2 = FeatureMap::new();
    for (k, v) in features {
        m2.insert(k.to_string(), v.iter().map(|s| s.to_string()).collect());
    }
    let pkg = Package {
        id: "path+file:///p#1.0.0".into(),
        name: "p".into(),
        version: "1.0.0".into(),
        dependencies: vec![],
        features: m,
        manifest_path: String::new(),
        publish: true,
        rust_version: None,
    };
    (pkg, m2)
}

fn names(fs: &[&Feature]) -> Vec<String> {
    fs.iter().map(|f| f.name().to_string()).collect()
}

#[test]
fn partition_from_str() {
    assert_eq!(Partition::from_str("1/2").unwrap(), Partition { index: 0, count: 2 });
    assert_eq!(Partition::from_str("2/2").unwrap(), Partition { index: 1, count: 2 });
    for bad in ["0/2", "3/2", "a/2", "1/2/3", "1"] {
        assert_eq!(
            Partition::from_str(bad).unwrap_err().message(),
            format!("bad or out-of-range partition: {bad}")
        );
    }
}

#[test]
fn progress_in_partition() {
    let p = Partition { index: 1, count: 3 };
    // 10 runs in 3 parts of 4, 4 and 2
    let got: Vec<bool> =
        (0..10).map(|count| Progress { total: 10, count }.in_partition(&p)).collect();
    assert_eq!(got, vec![false, false, false, false, true, true, true, true, false, false]);
}

#[test]
fn log_group() {
    assert_eq!(LogGroup::from_str("none").unwrap(), LogGroup::Plain);
    assert_eq!(LogGroup::from_str("github-actions").unwrap(), LogGroup::GithubActions);
    assert_eq!(
        LogGroup::from_str("x").unwrap_err().message(),
        "argument for --log-group must be none or github-actions, but found `x`"
    );
    assert_eq!(LogGroup::auto(true), LogGroup::GithubActions);
}

#[test]
fn keep_going_report() {
    let mut k = KeepGoing::new();
    k.record("b", "cargo check -p b".to_string());
    k.record("a", "cargo check -p a".to_string());
    k.record("b", "cargo test -p b".to_string());
    assert_eq!(k.count, 3);
    assert_eq!(
        k.text(),
        "failed to run 3 commands\n\nfailed commands:\n    a:\n        cargo check -p a\n    b:\n        cargo check -p b\n        cargo test -p b\n"
    );
}

#[test]
fn each_feature_runs_match_count() {
    let (pkg, map) = package(&[("a", &[]), ("b", &["a"])]);
    let packages = vec![];
    let pf = Features::new(&packages, &pkg, &vec![], &map, false);
    let mut cx = options();
    cx.each_feature = true;
    let r = determine_kind(&cx, PackageId { index: 0 }, &pkg.features, &pf, false).unwrap();
    match &r.kind {
        Kind::Each { features } => assert_eq!(names(features), vec!["a", "b"]),
        _ => panic!(),
    }
    assert_eq!(r.feature_count, 4);
    let runs = exec_on_package(&cx, &r.kind, &pf);
    assert_eq!(runs.len(), r.feature_count);
    assert!(runs[0].all_features);
    assert!(runs[1].no_default_features && runs[1].features.is_empty());
    assert_eq!(names(&runs[2].features), vec!["a"]);
}

#[test]
fn powerset_runs_match_count() {
    let (pkg, map) = package(&[("a", &[]), ("b", &[]), ("c", &["a"])]);
    let packages = vec![];
    let pf = Features::new(&packages, &pkg, &vec![], &map, false);
    let mut cx = options();
    cx.feature_powerset = true;
    cx.exclude_features = vec!["c".to_string()];
    let r = determine_kind(&cx, PackageId { index: 0 }, &pkg.features, &pf, false).unwrap();
    let combos: Vec<Vec<String>> = match &r.kind {
        Kind::Powerset { features } => features.iter().map(|c| names(c)).collect(),
        _ => panic!(),
    };
    assert_eq!(combos, vec![vec!["a"], vec!["b"], vec!["a", "b"]]);
    // no optional dependencies: no run with all features
    assert_eq!(r.feature_count, 4);
    let runs = exec_on_package(&cx, &r.kind, &pf);
    assert_eq!(runs.len(), r.feature_count);
    // the biggest combination runs right after the one without features
    assert_eq!(names(&runs[1].features), vec!["a", "b"]);
}

#[test]
fn private_and_normal_packages() {
    let (pkg, map) = package(&[("a", &[])]);
    let packages = vec![];
    let pf = Features::new(&packages, &pkg, &vec![], &map, false);
    let mut cx = options();
    cx.ignore_private = true;
    assert!(determine_kind(&cx, PackageId { index: 0 }, &pkg.features, &pf, true).is_none());
    let r = determine_kind(&cx, PackageId { index: 0 }, &pkg.features, &pf, false).unwrap();
    assert!(matches!(r.kind, Kind::Normal));
    assert_eq!(r.feature_count, 1);
    assert_eq!(exec_on_package(&cx, &r.kind, &pf).len(), 1);
}

#[test]
fn warnings_for_unknown_excluded_features_and_optional_deps() {
    let (mut pkg, map) = package(&[("a", &[]), ("b", &[])]);
    pkg.dependencies = vec![Dependency { name: "serde".into(), optional: true, rename: None }];
    let packages = vec![];
    let pf = Features::new(&packages, &pkg, &vec![], &map, false);
    let mut cx = options();
    cx.each_feature = true;
    cx.exclude_features = vec!["a".to_string(), "zz".to_string()];
    cx.optional_deps = Some(vec!["serde".to_string(), "tokio".to_string()]);
    assert_eq!(feature_warnings(&cx, &pf, "p", false), vec![
        "specified feature `zz` not found in package `p`".to_string(),
        "specified optional dependency `tokio` not found in package `p`".to_string(),
    ]);
    // several packages, or features given by --include-features: none
    assert!(feature_warnings(&cx, &pf, "p", true).is_empty());
    cx.include_features = vec![Feature::normal("a")];
    assert!(feature_warnings(&cx, &pf, "p", false).is_empty());
    // --optional-deps= gives none for optional dependencies
    cx.include_features = vec![];
    cx.optional_deps = Some(vec![String::new()]);
    assert_eq!(feature_warnings(&cx, &pf, "p", false), vec![
        "specified feature `zz` not found in package `p`".to_string(),
    ]);
    // without --each-feature or --feature-powerset: none
    cx.each_feature = false;
    assert!(feature_warnings(&cx, &pf, "p", false).is_empty());
}

#[test]
fn unknown_features_are_skipped_only_when_asked() {
    let (pkg, map) = package(&[("a", &[]), ("b", &[])]);
    let packages = vec![];
    let pf = Features::new(&packages, &pkg, &vec![], &map, false);
    let given = vec!["b".to_string(), "zz".to_string(), "a".to_string()];
    let (applied, skipped) = applied_features(&given, true, &pf);
    assert_eq!(applied, vec!["b".to_string(), "a".to_string()]);
    assert_eq!(skipped, vec!["zz".to_string()]);
    let (applied, skipped) = applied_features(&given, false, &pf);
    assert_eq!(applied, given);
    assert!(skipped.is_empty());
}

#[test]
fn groups_naming_unknown_features_are_skipped() {
    let (pkg, map) = package(&[("a", &[]), ("b", &[]), ("d", &[])]);
    let packages = vec![];
    let pf = Features::new(&packages, &pkg, &vec![], &map, false);
    let mut cx = options();
    cx.feature_powerset = true;
    cx.ignore_unknown_features = true;
    cx.group_features = vec![
        Feature::group(vec!["b".to_string(), "d".to_string(), "not_found".to_string()]),
        Feature::group(vec!["a".to_string(), "b".to_string()]),
    ];
    assert_eq!(skipped_groups(&cx, &pf), vec!["b,d,not_found".to_string()]);
    cx.ignore_unknown_features = false;
    assert!(skipped_groups(&cx, &pf).is_empty());
}

#[test]
fn failures_stop_the_runs_unless_kept_going() {
    let mut k = cargo_hack::runs::KeepGoing::new();
    assert!(!k.settle(true, false, "a", "cargo check".to_string()));
    assert_eq!(k.count, 0);
    assert!(!k.settle(true, true, "a", "cargo check".to_string()));
    assert_eq!(k.count, 1);
    assert!(k.settle(false, true, "a", "cargo test".to_string()));
    assert_eq!(k.count, 1);
}
