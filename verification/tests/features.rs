use std::collections::{BTreeMap, BTreeSet};

use cargo_hack::feature_map::FeatureMap;
use cargo_hack::features::{at_least_one_of_for_package, feature_deps, feature_powerset, powerset, Feature};

fn make_map(entries: Vec<(&str, Vec<&str>)>) -> FeatureMap {
    let mut m = FeatureMap::new();
    for (k, v) in entries {
        m.insert(k.to_string(), v.into_iter().map(String::from).collect());
    }
    m
}

fn as_btree(m: &FeatureMap) -> BTreeMap<String, BTreeSet<String>> {
    m.entries().iter().map(|(k, v)| (k.clone(), v.iter().cloned().collect())).collect()
}

fn set(items: Vec<&str>) -> BTreeSet<String> {
    items.into_iter().map(String::from).collect()
}

fn features(names: Vec<&str>) -> Vec<Feature> {
    names.into_iter().map(Feature::from).collect()
}

#[test]
fn at_least_one_of_for_package_filter() {
    let map = make_map(vec![("a", vec![]), ("b", vec!["a"]), ("c", vec!["b"]), ("d", vec!["a", "b"])]);
    let fd = feature_deps(&map);
    let list: Vec<Feature> = features(vec!["b", "x", "y", "z"]);
    let filtered = at_least_one_of_for_package(&list, &fd);
    let filtered: Vec<BTreeSet<String>> = filtered.into_iter().map(|s| s.into_iter().collect()).collect();
    assert_eq!(filtered, vec![set(vec!["b", "c", "d"])]);
}

#[test]
fn powerset_with_filter() {
    let map = make_map(vec![("a", vec![]), ("b", vec!["a"]), ("c", vec!["b"]), ("d", vec!["a", "b"])]);

    let list = features(vec!["a", "b", "c", "d"]);
    let filtered = feature_powerset(list.iter().collect(), None, &[], &[], &map);
    assert_eq!(filtered, vec![vec!["a"], vec!["b"], vec!["c"], vec!["d"], vec!["c", "d"]]);

    let filtered = feature_powerset(list.iter().collect(), None, &["a".into()], &[], &map);
    assert_eq!(filtered, vec![vec!["a"], vec!["b"], vec!["c"], vec!["d"], vec!["c", "d"]]);

    let filtered = feature_powerset(list.iter().collect(), None, &["c".into()], &[], &map);
    assert_eq!(filtered, vec![vec!["c"], vec!["c", "d"]]);

    let filtered = feature_powerset(list.iter().collect(), None, &["a".into(), "c".into()], &[], &map);
    assert_eq!(filtered, vec![vec!["c"], vec!["c", "d"]]);

    let map = make_map(vec![("tokio", vec![]), ("async-std", vec![]), ("a", vec![]), ("b", vec!["a"])]);
    let list = features(vec!["a", "b", "tokio", "async-std"]);
    let filtered =
        feature_powerset(list.iter().collect(), None, &[], &["tokio".into(), "async-std".into()], &map);
    assert_eq!(filtered, vec![
        vec!["a"],
        vec!["b"],
        vec!["tokio"],
        vec!["a", "tokio"],
        vec!["b", "tokio"],
        vec!["async-std"],
        vec!["a", "async-std"],
        vec!["b", "async-std"]
    ]);
}

#[test]
fn feature_deps1() {
    let map = make_map(vec![("a", vec![]), ("b", vec!["a"]), ("c", vec!["b"]), ("d", vec!["a", "b"])]);
    let fd = feature_deps(&map);
    let expected: BTreeMap<String, BTreeSet<String>> = vec![
        ("a".to_string(), set(vec![])),
        ("b".to_string(), set(vec!["a"])),
        ("c".to_string(), set(vec!["a", "b"])),
        ("d".to_string(), set(vec!["a", "b"])),
    ]
    .into_iter()
    .collect();
    assert_eq!(as_btree(&fd), expected);
    let list: Vec<Feature> = features(vec!["a", "b", "c", "d"]);
    let ps = powerset(list.iter().collect(), None);
    let expected: Vec<Vec<&str>> = vec![
        vec![],
        vec!["a"],
        vec!["b"],
        vec!["a", "b"],
        vec!["c"],
        vec!["a", "c"],
        vec!["b", "c"],
        vec!["a", "b", "c"],
        vec!["d"],
        vec!["a", "d"],
        vec!["b", "d"],
        vec!["a", "b", "d"],
        vec!["c", "d"],
        vec!["a", "c", "d"],
        vec!["b", "c", "d"],
        vec!["a", "b", "c", "d"],
    ];
    assert_eq!(ps, expected);
    let filtered = feature_powerset(list.iter().collect(), None, &[], &[], &map);
    assert_eq!(filtered, vec![vec!["a"], vec!["b"], vec!["c"], vec!["d"], vec!["c", "d"]]);
}

#[test]
fn features_powerset_full() {
    let v = powerset(vec![1, 2, 3, 4], None);
    assert_eq!(v, vec![
        vec![],
        vec![1],
        vec![2],
        vec![1, 2],
        vec![3],
        vec![1, 3],
        vec![2, 3],
        vec![1, 2, 3],
        vec![4],
        vec![1, 4],
        vec![2, 4],
        vec![1, 2, 4],
        vec![3, 4],
        vec![1, 3, 4],
        vec![2, 3, 4],
        vec![1, 2, 3, 4],
    ]);
}

#[test]
fn features_powerset_depth1() {
    let v = powerset(vec![1, 2, 3, 4], Some(1));
    assert_eq!(v, vec![vec![], vec![1], vec![2], vec![3], vec![4],]);
}

#[test]
fn features_powerset_depth2() {
    let v = powerset(vec![1, 2, 3, 4], Some(2));
    assert_eq!(v, vec![
        vec![],
        vec![1],
        vec![2],
        vec![1, 2],
        vec![3],
        vec![1, 3],
        vec![2, 3],
        vec![4],
        vec![1, 4],
        vec![2, 4],
        vec![3, 4],
    ]);
}

#[test]
fn features_powerset_depth3() {
    let v = powerset(vec![1, 2, 3, 4], Some(3));
    assert_eq!(v, vec![
        vec![],
        vec![1],
        vec![2],
        vec![1, 2],
        vec![3],
        vec![1, 3],
        vec![2, 3],
        vec![1, 2, 3],
        vec![4],
        vec![1, 4],
        vec![2, 4],
        vec![1, 2, 4],
        vec![3, 4],
        vec![1, 3, 4],
        vec![2, 3, 4],
    ]);
}
