use cargo_hack::args::{ArgsState, Finish, Need, Note, Step, Token};
use cargo_hack::feature_map::FeatureMap;
use cargo_hack::features::Features;
use cargo_hack::metadata::Package;
use cargo_hack::runs::{feature_warnings, RunOptions};

fn token(s: &str) -> Token {
    if let Some(name) = s.strip_prefix("--") {
        Token::Long(name.to_string())
    } else if s.len() == 2 && s.starts_with('-') {
        Token::Short(s.chars().nth(1).unwrap())
    } else {
        Token::Value(s.to_string())
    }
}

/// Feeds the arguments, each with the value it takes, and ends the parse,
/// with the notes that it gave.
fn parse_with_notes(items: &[(&str, Option<&str>)]) -> (Result<Finish, String>, Vec<Note>) {
    let mut st = ArgsState::new();
    for (arg, value) in items {
        let tok = token(arg);
        let need = match st.begin(&tok) {
            Ok(n) => n,
            Err(e) => return (Err(e.message().to_string()), vec![]),
        };
        let value = match need {
            Need::Nothing => None,
            Need::Required => Some(value.expect("a value").to_string()),
            Need::Optional | Need::OptionalOrNext => value.map(str::to_string),
        };
        assert_eq!(st.apply(tok, value), Step::Continue);
    }
    let (res, notes) = st.finish(vec![], u32::MAX);
    (res.map_err(|e| e.message().to_string()), notes)
}

/// The error of a parse that fails.
fn failure(items: &[(&str, Option<&str>)]) -> String {
    match parse(items) {
        Err(e) => e,
        Ok(_) => panic!("{items:?} parsed"),
    }
}

/// Feeds the arguments, each with the value it takes, and ends the parse.
fn parse(items: &[(&str, Option<&str>)]) -> Result<Finish, String> {
    let mut st = ArgsState::new();
    for (arg, value) in items {
        let tok = token(arg);
        let need = st.begin(&tok).map_err(|e| e.message().to_string())?;
        let value = match need {
            Need::Nothing => None,
            Need::Required => Some(value.expect("a value").to_string()),
            Need::Optional | Need::OptionalOrNext => value.map(str::to_string),
        };
        assert_eq!(st.apply(tok, value), Step::Continue);
    }
    let (res, _notes) = st.finish(vec![], u32::MAX);
    res.map_err(|e| e.message().to_string())
}

fn parsed(items: &[(&str, Option<&str>)]) -> cargo_hack::args::Args {
    match parse(items) {
        Ok(Finish::Parsed(a)) => a,
        Ok(Finish::List) => panic!("listing"),
        Err(e) => panic!("{e}"),
    }
}

#[test]
fn args_basic_each_feature() {
    let a = parsed(&[("check", None), ("--each-feature", None), ("--features", Some("a,b"))]);
    assert_eq!(a.subcommand.as_deref(), Some("check"));
    assert!(a.each_feature);
    assert_eq!(a.features, vec!["a", "b"]);
    assert_eq!(a.exclude_features, vec!["a", "b"]);
    assert!(!a.exclude_all_features);
    assert_eq!(a.leading_args, vec!["check"]);
}

#[test]
fn args_quoted_and_space_separated_lists() {
    let a = parsed(&[("check", None), ("--features", Some("'real renamed'"))]);
    assert_eq!(a.features, vec!["real", "renamed"]);
    let a = parsed(&[("check", None), ("--features", Some("\"a,,b\""))]);
    assert_eq!(a.features, vec!["a", "b"]);
}

#[test]
fn args_propagated_and_passthrough() {
    let a = parsed(&[
        ("check", None),
        ("--color", Some("auto")),
        ("--no-default-features", None),
        ("--release", None),
        ("--jobs", Some("2")),
        ("-q", None),
        ("-j", Some("4")),
        ("--target", Some("b")),
        ("--target", Some("a")),
        ("--target", Some("b")),
    ]);
    assert_eq!(a.leading_args, vec![
        "check",
        "--color",
        "auto",
        "--no-default-features",
        "--release",
        "--jobs=2",
        "-q",
        "-j4"
    ]);
    assert_eq!(a.target, vec!["a", "b"]);
    assert!(a.no_default_features);
}

#[test]
fn args_verbose_propagates_extra_levels() {
    let a = parsed(&[("check", None), ("-v", None), ("-v", None), ("-v", None)]);
    assert!(a.verbose);
    assert_eq!(a.leading_args, vec!["check", "-vv"]);
}

#[test]
fn args_optional_deps() {
    let a = parsed(&[("check", None), ("--each-feature", None), ("--optional-deps", None)]);
    assert_eq!(a.optional_deps, Some(vec![]));
    let a = parsed(&[("check", None), ("--each-feature", None), ("--optional-deps", Some("x,y"))]);
    assert_eq!(a.optional_deps, Some(vec!["x".to_string(), "y".to_string()]));
}

#[test]
fn args_errors() {
    assert_eq!(
        parse(&[("check", None), ("--each-feature", None), ("--feature-powerset", None)])
            .err()
            .unwrap(),
        "--each-feature may not be used together with --feature-powerset"
    );
    assert_eq!(
        parse(&[("check", None), ("--exclude", Some("member1"))]).err().unwrap(),
        "--exclude can only be used together with --workspace"
    );
    assert_eq!(
        parse(&[("check", None), ("--depth", Some("2")), ("--each-feature", None)]).err().unwrap(),
        "--depth can only be used together with --feature-powerset"
    );
    assert_eq!(
        parse(&[("check", None), ("--ignore-non-exist-features", None)]).err().unwrap(),
        "--ignore-non-exist-features was removed, use --ignore-unknown-features instead"
    );
    assert_eq!(
        parse(&[("check", None), ("--no-dev-deps", None), ("--remove-dev-deps", None)])
            .err()
            .unwrap(),
        "--no-dev-deps may not be used together with --remove-dev-deps"
    );
    assert_eq!(
        parse(&[("test", None), ("--no-dev-deps", None)]).err().unwrap(),
        "--no-dev-deps may not be used together with test subcommand"
    );
    assert_eq!(
        parse(&[("install", None)]).err().unwrap(),
        "cargo-hack may not be used together with install subcommand"
    );
    assert_eq!(
        parse(&[("check", None), ("--remove-dev-deps", None), ("--examples", None)]).err().unwrap(),
        "--remove-dev-deps may not be used together with --examples"
    );
    assert_eq!(
        parse(&[
            ("check", None),
            ("--each-feature", None),
            ("--exclude-features", Some("a")),
            ("--features", Some("a"))
        ])
        .err()
        .unwrap(),
        "feature `a` specified by both --exclude-features and --features"
    );
    assert_eq!(
        parse(&[("check", None), ("--feature-powerset", None), ("--group-features", Some("a"))])
            .err()
            .unwrap(),
        "--group-features requires a list of two or more features separated by space or comma"
    );
    assert_eq!(
        parse(&[("check", None), ("--feature-powerset", None), ("--depth", Some("x"))])
            .err()
            .unwrap(),
        "invalid digit found in string"
    );
    assert_eq!(
        parse(&[("check", None), ("--version-step", Some("2"))]).err().unwrap(),
        "--version-step can only be used together with --version-range"
    );
    assert!(
        parse(&[("--workspace", None)]).err().unwrap().starts_with("no subcommand or valid flag specified")
    );
}

#[test]
fn args_flag_given_twice() {
    let mut st = ArgsState::new();
    let tok = token("--workspace");
    assert_eq!(st.begin(&tok).ok(), Some(Need::Nothing));
    st.apply(tok, None);
    let e = st.begin(&token("--all")).err().unwrap();
    assert!(e.message().starts_with(
        "The argument '--all' was provided more than once, but cannot be used multiple times"
    ));
}

#[test]
fn args_help_and_listing() {
    let mut st = ArgsState::new();
    assert_eq!(st.apply(token("-h"), None), Step::PrintShortHelp);
    assert_eq!(st.apply(token("--help"), None), Step::PrintLongHelp);
    assert!(matches!(parse(&[("--list", None)]), Ok(Finish::List)));
    let mut st = ArgsState::new();
    st.apply(token("check"), None);
    st.apply(token("--no-dev-deps"), None);
    let (res, notes) = st.finish(vec!["--ignored".to_string()], u32::MAX);
    let a = match res {
        Ok(Finish::Parsed(a)) => a,
        _ => panic!(),
    };
    assert_eq!(a.trailing_args, vec!["--ignored"]);
    assert!(matches!(&notes[..], [Note::Info(_)]));
}

#[test]
fn args_version_range_needs_recent_rustup() {
    let mut st = ArgsState::new();
    st.apply(token("check"), None);
    st.apply(token("--version-range"), Some("1.60..".to_string()));
    let (res, _) = st.finish(vec![], 22);
    assert_eq!(res.err().unwrap().message(), "--version-range requires rustup 1.23 or later");
}

#[test]
fn failures() {
    assert!(failure(&[]).contains("no subcommand or valid flag specified"));
    assert!(failure(&[("--all", None)]).contains("no subcommand or valid flag specified"));
    assert!(failure(&[("install", None)])
        .contains("cargo-hack may not be used together with install subcommand"));
}

#[test]
fn multi_arg() {
    for (flag, value) in [
        ("--workspace", None),
        ("--all", None),
        ("--each-feature", None),
        ("--feature-powerset", None),
        ("--no-dev-deps", None),
        ("--remove-dev-deps", None),
        ("--no-private", None),
        ("--ignore-private", None),
        ("--ignore-unknown-features", None),
        ("--optional-deps", None),
        ("--manifest-path", Some("foo")),
        ("--color", Some("auto")),
    ] {
        let e = failure(&[("check", None), (flag, value), (flag, value)]);
        assert!(
            e.contains(&format!(
                "The argument '{flag}' was provided more than once, but cannot be used multiple times"
            )),
            "{e}"
        );
    }
}

#[test]
fn removed_flags() {
    for (flag, alt) in [
        ("--ignore-non-exist-features", "--ignore-unknown-features"),
        ("--skip-no-default-features", "--exclude-no-default-features"),
    ] {
        assert!(failure(&[("check", None), (flag, None)]).contains(&format!("{flag} was removed, use {alt} instead")));
    }
}

#[test]
fn exclude_failure() {
    assert!(failure(&[("check", None), ("--exclude", Some("member1"))])
        .contains("--exclude can only be used together with --workspace"));
}

#[test]
fn no_dev_deps_failure() {
    assert!(failure(&[("check", None), ("--no-dev-deps", None), ("--remove-dev-deps", None)])
        .contains("--no-dev-deps may not be used together with --remove-dev-deps"));
    for flag in ["--example", "--examples", "--test", "--tests", "--bench", "--benches", "--all-targets"] {
        let value = if flag == "--example" || flag == "--test" || flag == "--bench" { Some("x") } else { None };
        assert!(failure(&[("check", None), ("--no-dev-deps", None), (flag, value)])
            .contains(&format!("--no-dev-deps may not be used together with {flag}")));
    }
    for subcommand in ["test", "bench"] {
        assert!(failure(&[(subcommand, None), ("--no-dev-deps", None)])
            .contains(&format!("--no-dev-deps may not be used together with {subcommand} subcommand")));
    }
}

#[test]
fn remove_dev_deps_failure() {
    for flag in ["--example", "--examples", "--test", "--tests", "--bench", "--benches", "--all-targets"] {
        let value = if flag == "--example" || flag == "--test" || flag == "--bench" { Some("x") } else { None };
        assert!(failure(&[("check", None), ("--remove-dev-deps", None), (flag, value)])
            .contains(&format!("--remove-dev-deps may not be used together with {flag}")));
    }
    for subcommand in ["test", "bench"] {
        assert!(failure(&[(subcommand, None), ("--remove-dev-deps", None)])
            .contains(&format!("--remove-dev-deps may not be used together with {subcommand} subcommand")));
    }
}

#[test]
fn ignore_unknown_features_failure() {
    assert!(failure(&[("check", None), ("--ignore-unknown-features", None)]).contains(
        "--ignore-unknown-features can only be used together with --features, --include-features, or --group-features"
    ));
    let (res, notes) = parse_with_notes(&[
        ("check", None),
        ("--ignore-unknown-features", None),
        ("--feature-powerset", None),
        ("--include-features", Some("a")),
    ]);
    assert!(res.is_ok());
    assert!(notes.iter().any(|n| matches!(n, Note::Warn(w) if w
        == "--ignore-unknown-features for --include-features is not fully implemented and may not work as intended")));
}

#[test]
fn each_feature_failure() {
    assert!(failure(&[("check", None), ("--each-feature", None), ("--feature-powerset", None)])
        .contains("--each-feature may not be used together with --feature-powerset"));
    assert!(failure(&[("check", None), ("--each-feature", None), ("--all-features", None)])
        .contains("--all-features may not be used together with --each-feature"));
    assert!(failure(&[("check", None), ("--each-feature", None), ("--no-default-features", None)])
        .contains("--no-default-features may not be used together with --each-feature"));
}

#[test]
fn feature_powerset_failure() {
    assert!(failure(&[("check", None), ("--each-feature", None), ("--feature-powerset", None)])
        .contains("--each-feature may not be used together with --feature-powerset"));
    assert!(failure(&[("check", None), ("--feature-powerset", None), ("--all-features", None)])
        .contains("--all-features may not be used together with --feature-powerset"));
    assert!(failure(&[("check", None), ("--feature-powerset", None), ("--no-default-features", None)])
        .contains("--no-default-features may not be used together with --feature-powerset"));
}

#[test]
fn depth_failure() {
    assert!(failure(&[("check", None), ("--each-feature", None), ("--depth", Some("2"))])
        .contains("--depth can only be used together with --feature-powerset"));
}

#[test]
fn group_features_failure() {
    assert!(failure(&[("check", None), ("--each-feature", None), ("--group-features", Some("a,b"))])
        .contains("--group-features can only be used together with --feature-powerset"));
    assert!(failure(&[("check", None), ("--feature-powerset", None), ("--group-features", Some("a"))])
        .contains("--group-features requires a list of two or more features separated by space or comma"));
}

#[test]
fn exclude_features_failure() {
    assert!(failure(&[("check", None), ("--exclude-features", Some("a"))]).contains(
        "--exclude-features (--skip) can only be used together with either --each-feature or --feature-powerset"
    ));
    assert!(failure(&[
        ("check", None),
        ("--each-feature", None),
        ("--exclude-features", Some("a")),
        ("--features", Some("a"))
    ])
    .contains("feature `a` specified by both --exclude-features and --features"));
    assert!(failure(&[
        ("check", None),
        ("--each-feature", None),
        ("--exclude-features", Some("member1")),
        ("--optional-deps", Some("member1"))
    ])
    .contains("feature `member1` specified by both --exclude-features and --optional-deps"));
    assert!(failure(&[
        ("check", None),
        ("--feature-powerset", None),
        ("--exclude-features", Some("a")),
        ("--group-features", Some("a,b"))
    ])
    .contains("feature `a` specified by both --exclude-features and --group-features"));
    assert!(failure(&[
        ("check", None),
        ("--each-feature", None),
        ("--exclude-features", Some("a")),
        ("--include-features", Some("a,b"))
    ])
    .contains("feature `a` specified by both --exclude-features and --include-features"));

    // an excluded feature that the package does not have is a warning
    let a = parsed(&[("check", None), ("--each-feature", None), ("--exclude-features", Some("z"))]);
    let mut features = FeatureMap::new();
    features.insert("default".to_string(), vec![]);
    features.insert("a".to_string(), vec![]);
    let mut map = FeatureMap::new();
    map.insert("default".to_string(), vec![]);
    map.insert("a".to_string(), vec![]);
    let pkg = Package {
        id: "path+file:///real#0.0.0".into(),
        name: "real".into(),
        version: "0.0.0".into(),
        dependencies: vec![],
        features,
        manifest_path: String::new(),
        publish: true,
        rust_version: None,
    };
    let pf = Features::new(&vec![], &pkg, &vec![], &map, false);
    let cx = RunOptions {
        ignore_private: a.ignore_private,
        each_feature: a.each_feature,
        feature_powerset: a.feature_powerset,
        exclude_features: a.exclude_features.clone(),
        group_features: vec![],
        include_features: vec![],
        optional_deps: a.optional_deps.clone(),
        include_deps_features: a.include_deps_features,
        ignore_unknown_features: a.ignore_unknown_features,
        exclude_no_default_features: a.exclude_no_default_features,
        exclude_all_features: a.exclude_all_features,
        no_default_features: a.no_default_features,
        depth: a.depth,
        at_least_one_of: vec![],
        mutually_exclusive_features: vec![],
    };
    assert_eq!(feature_warnings(&cx, &pf, "real", false), vec![
        "specified feature `z` not found in package `real`".to_string()
    ]);
}

#[test]
fn exclude_no_default_features_failure() {
    assert!(failure(&[("check", None), ("--exclude-no-default-features", None)]).contains(
        "--exclude-no-default-features can only be used together with either --each-feature or --feature-powerset"
    ));
}

#[test]
fn exclude_all_features_failure() {
    assert!(failure(&[("check", None), ("--exclude-all-features", None)]).contains(
        "--exclude-all-features can only be used together with either --each-feature or --feature-powerset"
    ));
}

#[test]
fn optional_deps_failure() {
    assert!(failure(&[("check", None), ("--optional-deps", None)]).contains(
        "--optional-deps can only be used together with either --each-feature or --feature-powerset"
    ));
}

#[test]
fn empty_feature_lists_are_no_flags() {
    let plain = parsed(&[("check", None)]);
    for flag in ["--features", "-F", "--skip", "--exclude-features", "--include-features"] {
        let a = parsed(&[("check", None), (flag, Some(""))]);
        assert!(a.features.is_empty());
        assert!(a.exclude_features.is_empty());
        assert!(a.include_features.is_empty());
        assert_eq!(a.exclude_no_default_features, plain.exclude_no_default_features);
        assert_eq!(a.exclude_all_features, plain.exclude_all_features);
        assert_eq!(a.leading_args, plain.leading_args);
    }
}
