use cargo_hack::package::{package_plan, powerset, Kind};

#[test]
fn package_powerset_full() {
    let v = powerset(vec![1, 2, 3, 4], None);
    assert_eq!(v, vec![
        vec![],
        vec![1],
        vec![2],
        vec![1, 2],
        vec![3],
        vec![1, 3],
        vec![2, 3],
        vec![1, 2, 3],
        vec![4],
        vec![1, 4],
        vec![2, 4],
        vec![1, 2, 4],
        vec![3, 4],
        vec![1, 3, 4],
        vec![2, 3, 4],
        vec![1, 2, 3, 4],
    ]);
}

#[test]
fn package_powerset_depth1() {
    let v = powerset(vec![1, 2, 3, 4], Some(1));
    assert_eq!(v, vec![vec![], vec![1], vec![2], vec![3], vec![4],]);
}

#[test]
fn package_powerset_depth2() {
    let v = powerset(vec![1, 2, 3, 4], Some(2));
    assert_eq!(v, vec![
        vec![],
        vec![1],
        vec![2],
        vec![1, 2],
        vec![3],
        vec![1, 3],
        vec![2, 3],
        vec![4],
        vec![1, 4],
        vec![2, 4],
        vec![3, 4],
    ]);
}

#[test]
fn package_powerset_depth3() {
    let v = powerset(vec![1, 2, 3, 4], Some(3));
    assert_eq!(v, vec![
        vec![],
        vec![1],
        vec![2],
        vec![1, 2],
        vec![3],
        vec![1, 3],
        vec![2, 3],
        vec![1, 2, 3],
        vec![4],
        vec![1, 4],
        vec![2, 4],
        vec![1, 2, 4],
        vec![3, 4],
        vec![1, 3, 4],
        vec![2, 3, 4],
    ]);
}

fn plan_args(each: bool, powerset: bool, skip: &[&str]) -> cargo_hack::package::Args {
    cargo_hack::package::Args {
        subcommand: Some("check".to_string()),
        each_feature: each,
        feature_powerset: powerset,
        skip: skip.iter().map(|s| s.to_string()).collect(),
        optional_deps: None,
        depth: None,
        skip_no_default_features: false,
        skip_all_features: false,
    }
}

fn plan_package() -> cargo_hack::metadata::Package {
    let mut features = cargo_hack::feature_map::FeatureMap::new();
    features.insert("a".to_string(), vec![]);
    features.insert("b".to_string(), vec![]);
    features.insert("default".to_string(), vec!["a".to_string()]);
    cargo_hack::metadata::Package {
        id: "p 0.1.0".to_string(),
        name: "p".to_string(),
        version: "0.1.0".to_string(),
        dependencies: vec![],
        features,
        manifest_path: String::new(),
        publish: true,
        rust_version: None,
    }
}

#[test]
fn counted_runs_are_the_planned_runs() {
    let pkg = plan_package();
    let args = plan_args(true, false, &[]);
    let mut total = 0;
    let kind = Kind::determine(&args, &pkg, &mut total);
    let plan = package_plan(&args, &kind);
    assert_eq!(total, 5);
    assert_eq!(plan.len(), 5);
    assert!(!plan[0].no_default_features && plan[0].features.is_empty());
    assert!(plan[1].no_default_features && plan[1].features.is_empty());
    assert_eq!(plan[2].features, vec!["a"]);
    assert_eq!(plan[3].features, vec!["b"]);
    assert!(plan[4].all_features);

    let args = plan_args(false, true, &["default"]);
    let mut total = 0;
    let kind = Kind::determine(&args, &pkg, &mut total);
    let plan = package_plan(&args, &kind);
    // the combinations {a}, {b}, {a, b}; no default run; no-default and all
    assert_eq!(total, 5);
    assert_eq!(plan.len(), 5);
    assert_eq!(plan[1].features, vec!["a"]);
    assert_eq!(plan[3].features, vec!["a", "b"]);
    assert!(plan[4].all_features && plan[4].features.is_empty());
}
