//! The runs that a command line gives for a package, from the parsed
//! arguments to the list of feature flags of each run of cargo.

use cargo_hack::args::{Args, ArgsState, Finish, Need, Step, Token};
use cargo_hack::feature_map::FeatureMap;
use cargo_hack::features::{Feature, Features};
use cargo_hack::metadata::{Dependency, Package, PackageId};
use cargo_hack::runs::{
    applied_features, determine_kind, exec_on_package, feature_warnings, KeepGoing, RunOptions,
};

fn token(s: &str) -> Token {
    if let Some(name) = s.strip_prefix("--") {
        Token::Long(name.to_string())
    } else if s.len() == 2 && s.starts_with('-') {
        Token::Short(s.chars().nth(1).unwrap())
    } else {
        Token::Value(s.to_string())
    }
}

/// The arguments, each given with the value it takes.
fn args(items: &[(&str, Option<&str>)]) -> Args {
    let mut st = ArgsState::new();
    for (arg, value) in items {
        let tok = token(arg);
        let need = st.begin(&tok).map_err(|e| e.message().to_string()).unwrap();
        let value = match need {
            Need::Nothing => None,
            Need::Required => Some(value.expect("a value").to_string()),
            Need::Optional | Need::OptionalOrNext => value.map(str::to_string),
        };
        assert_eq!(st.apply(tok, value), Step::Continue);
    }
    match st.finish(vec![], u32::MAX).0 {
        Ok(Finish::Parsed(a)) => a,
        Ok(Finish::List) => panic!("listing"),
        Err(e) => panic!("{}", e.message()),
    }
}

fn copy_features(fs: &[Feature]) -> Vec<Feature> {
    fs.iter()
        .map(|f| {
            let list = f.as_group().to_vec();
            if list.len() == 1 && list[0] == f.name() { Feature::normal(f.name()) } else { Feature::group(list) }
        })
        .collect()
}

fn options(a: &Args) -> RunOptions {
    RunOptions {
        ignore_private: a.ignore_private,
        each_feature: a.each_feature,
        feature_powerset: a.feature_powerset,
        exclude_features: a.exclude_features.clone(),
        group_features: copy_features(&a.group_features),
        include_features: copy_features(&a.include_features),
        optional_deps: a.optional_deps.clone(),
        include_deps_features: a.include_deps_features,
        ignore_unknown_features: a.ignore_unknown_features,
        exclude_no_default_features: a.exclude_no_default_features,
        exclude_all_features: a.exclude_all_features,
        no_default_features: a.no_default_features,
        depth: a.depth,
        at_least_one_of: copy_features(&a.at_least_one_of),
        mutually_exclusive_features: vec![],
    }
}

fn feature_map(features: &[(&str, &[&str])]) -> FeatureMap {
    let mut m = FeatureMap::new();
    for (k, v) in features {
        m.insert(k.to_string(), v.iter().map(|s| s.to_string()).collect());
    }
    m
}

/// A package with its features and dependencies (name, optional, renamed to).
struct Pkg {
    package: Package,
    manifest_features: FeatureMap,
}

fn pkg(name: &str, features: &[(&str, &[&str])], deps: &[(&str, bool, Option<&str>)]) -> Pkg {
    let package = Package {
        id: format!("path+file:///{name}#0.0.0"),
        name: name.to_string(),
        version: "0.0.0".into(),
        dependencies: deps
            .iter()
            .map(|(n, optional, rename)| Dependency {
                name: n.to_string(),
                optional: *optional,
                rename: rename.map(str::to_string),
            })
            .collect(),
        features: feature_map(features),
        manifest_path: format!("{name}/Cargo.toml"),
        publish: true,
        rust_version: None,
    };
    Pkg { package, manifest_features: feature_map(features) }
}

/// The `real` package: features `a`, `b`, `c` and `default`, and an
/// optional dependency `member1`.
fn real_pkg() -> Pkg {
    pkg("real", &[("a", &[]), ("b", &[]), ("c", &[]), ("default", &[])], &[
        ("member1", true, None),
        ("member2", false, None),
    ])
}

/// The `optional_deps` package: no features of its own, and the optional
/// dependencies `real` and `member3` (renamed to `renamed`).
fn optional_deps_pkg() -> Pkg {
    pkg("optional_deps", &[], &[("real", true, None), ("member3", true, Some("renamed"))])
}

/// The feature flags of each run of cargo on the package, as the command
/// line shows them, and the number of runs that was counted.
fn plan(items: &[(&str, Option<&str>)], p: &Pkg) -> (Vec<String>, usize) {
    let a = args(items);
    let cx = options(&a);
    let pf = Features::new(&vec![], &p.package, &vec![], &p.manifest_features, false);
    let runs = determine_kind(&cx, PackageId { index: 0 }, &p.package.features, &pf, false).unwrap();
    let (applied, _) = applied_features(&a.features, a.ignore_unknown_features, &pf);
    let lines = exec_on_package(&cx, &runs.kind, &pf)
        .iter()
        .map(|run| {
            let mut parts = vec![];
            if run.all_features {
                parts.push("--all-features".to_string());
            }
            if run.no_default_features {
                parts.push("--no-default-features".to_string());
            }
            let mut features = applied.clone();
            features.extend(run.features.iter().map(|f| f.name().to_string()));
            if !features.is_empty() {
                parts.push(format!("--features {}", features.join(",")));
            }
            parts.join(" ")
        })
        .collect();
    (lines, runs.feature_count)
}

fn check(items: &[(&str, Option<&str>)], p: &Pkg, expected: &[&str]) {
    let mut all = vec![("check", None)];
    all.extend_from_slice(items);
    let (lines, count) = plan(&all, p);
    assert_eq!(lines, expected, "{items:?}");
    assert_eq!(count, expected.len(), "{items:?}");
}

#[test]
fn each_feature() {
    check(&[("--each-feature", None)], &real_pkg(), &[
        "--all-features",
        "--no-default-features",
        "--no-default-features --features a",
        "--no-default-features --features b",
        "--no-default-features --features c",
        "--no-default-features --features default",
    ]);
    check(&[("--each-feature", None), ("--features", Some("a"))], &real_pkg(), &[
        "--all-features --features a",
        "--no-default-features --features a",
        "--no-default-features --features a,b",
        "--no-default-features --features a,c",
        "--no-default-features --features a,default",
    ]);
}

#[test]
fn feature_powerset_depth() {
    check(&[("--feature-powerset", None), ("--depth", Some("2"))], &real_pkg(), &[
        "--all-features",
        "--no-default-features",
        "--no-default-features --features a",
        "--no-default-features --features b",
        "--no-default-features --features a,b",
        "--no-default-features --features c",
        "--no-default-features --features a,c",
        "--no-default-features --features b,c",
        "--no-default-features --features default",
        "--no-default-features --features a,default",
        "--no-default-features --features b,default",
        "--no-default-features --features c,default",
    ]);
}

#[test]
fn include_features() {
    check(&[("--each-feature", None), ("--include-features", Some("a,b"))], &real_pkg(), &[
        "--no-default-features --features a",
        "--no-default-features --features b",
    ]);
    check(&[("--feature-powerset", None), ("--include-features", Some("a,b"))], &real_pkg(), &[
        "--no-default-features --features a,b",
        "--no-default-features --features a",
        "--no-default-features --features b",
    ]);
}

#[test]
fn each_feature_skip_success() {
    check(&[("--each-feature", None), ("--exclude-features", Some("a"))], &real_pkg(), &[
        "--no-default-features",
        "--no-default-features --features b",
        "--no-default-features --features c",
        "--no-default-features --features default",
    ]);
    let rest = [
        "--no-default-features",
        "--no-default-features --features c",
        "--no-default-features --features default",
    ];
    check(&[("--each-feature", None), ("--exclude-features", Some("a b"))], &real_pkg(), &rest);
    check(
        &[("--each-feature", None), ("--exclude-features", Some("a")), ("--exclude-features", Some("b"))],
        &real_pkg(),
        &rest,
    );
}

#[test]
fn powerset_skip_success() {
    check(&[("--feature-powerset", None), ("--exclude-features", Some("a"))], &real_pkg(), &[
        "--no-default-features",
        "--no-default-features --features b,c,default",
        "--no-default-features --features b",
        "--no-default-features --features c",
        "--no-default-features --features b,c",
        "--no-default-features --features default",
        "--no-default-features --features b,default",
        "--no-default-features --features c,default",
    ]);
}

#[test]
fn exclude_features_default() {
    check(&[("--each-feature", None), ("--exclude-features", Some("default"))], &real_pkg(), &[
        "--no-default-features",
        "--no-default-features --features a",
        "--no-default-features --features b",
        "--no-default-features --features c",
    ]);
}

#[test]
fn exclude_no_default_features() {
    check(&[("--each-feature", None), ("--exclude-no-default-features", None)], &real_pkg(), &[
        "--all-features",
        "--no-default-features --features a",
        "--no-default-features --features b",
        "--no-default-features --features c",
        "--no-default-features --features default",
    ]);
}

#[test]
fn exclude_all_features() {
    check(&[("--each-feature", None), ("--exclude-all-features", None)], &real_pkg(), &[
        "--no-default-features",
        "--no-default-features --features a",
        "--no-default-features --features b",
        "--no-default-features --features c",
        "--no-default-features --features default",
    ]);
}

#[test]
fn each_feature_all() {
    let each = [
        "--all-features",
        "--no-default-features",
        "--no-default-features --features a",
        "--no-default-features --features b",
        "--no-default-features --features c",
        "--no-default-features --features default",
    ];
    let mut total = 0;
    for name in ["member1", "member2", "member3", "real"] {
        let mut p = real_pkg();
        p.package.name = name.to_string();
        let (lines, count) = plan(&[("check", None), ("--each-feature", None), ("--workspace", None)], &p);
        assert_eq!(lines, each);
        total += count;
    }
    assert_eq!(total, 24);
}

#[test]
fn optional_deps() {
    let p = optional_deps_pkg();
    let a = args(&[
        ("run", None),
        ("--features", Some("real,member2,renamed")),
        ("--ignore-unknown-features", None),
    ]);
    let pf = Features::new(&vec![], &p.package, &vec![], &p.manifest_features, false);
    let (applied, skipped) = applied_features(&a.features, a.ignore_unknown_features, &pf);
    assert_eq!(applied, vec!["real".to_string(), "renamed".to_string()]);
    assert_eq!(skipped, vec!["member2".to_string()]);

    check(&[("--each-feature", None)], &p, &["--all-features", "--no-default-features"]);
    check(&[("--each-feature", None), ("--optional-deps", None)], &p, &[
        "--all-features",
        "--no-default-features",
        "--no-default-features --features real",
        "--no-default-features --features renamed",
    ]);
    check(&[("--each-feature", None), ("--optional-deps", Some("real"))], &p, &[
        "--all-features",
        "--no-default-features",
        "--no-default-features --features real",
    ]);
    check(&[("--each-feature", None), ("--optional-deps", Some("renamed"))], &p, &[
        "--all-features",
        "--no-default-features",
        "--no-default-features --features renamed",
    ]);
    check(&[("--each-feature", None), ("--optional-deps", Some(""))], &p, &[
        "--all-features",
        "--no-default-features",
    ]);
}

#[test]
fn skip_optional_deps() {
    check(
        &[("--each-feature", None), ("--optional-deps", None), ("--exclude-features", Some("real"))],
        &optional_deps_pkg(),
        &["--no-default-features", "--no-default-features --features renamed"],
    );
}

#[test]
fn list_separator() {
    for (flag, value) in [
        ("--features", "'real,renamed'"),
        ("--features", "\"real,renamed\""),
        ("--features", "real,renamed"),
        ("--features", "'real renamed'"),
        ("--features", "\"real renamed\""),
        ("--features", "real renamed"),
    ] {
        let a = args(&[("run", None), (flag, Some(value))]);
        assert_eq!(a.features, vec!["real".to_string(), "renamed".to_string()], "{value}");
    }
}

#[test]
fn empty_string() {
    let p = real_pkg();
    let a = args(&[("check", None), ("--each-feature", None), ("--skip", Some(""))]);
    let pf = Features::new(&vec![], &p.package, &vec![], &p.manifest_features, false);
    let warnings = feature_warnings(&options(&a), &pf, "real", false);
    assert!(warnings.iter().all(|w| !w.contains("not found")), "{warnings:?}");
}

#[test]
fn keep_going() {
    let mut k = KeepGoing::new();
    k.record("keep_going", "cargo check --manifest-path Cargo.toml --no-default-features".to_string());
    k.record("keep_going", "cargo check --manifest-path Cargo.toml --no-default-features --features a".to_string());
    assert_eq!(
        k.text(),
        "failed to run 2 commands\n\nfailed commands:\n    keep_going:\n        cargo check --manifest-path Cargo.toml --no-default-features\n        cargo check --manifest-path Cargo.toml --no-default-features --features a\n"
    );
}
