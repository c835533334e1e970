use cargo_hack::cargo::{check_include_deps_features, match_pkg_spec, metadata_args, version};
use cargo_hack::feature_map::FeatureMap;
use cargo_hack::metadata::Package;

fn new_pkg(id: &str, name: &str, version: &str) -> Package {
    Package {
        id: id.into(),
        name: name.into(),
        version: version.into(),
        dependencies: Vec::new(),
        features: FeatureMap::new(),
        manifest_path: String::new(),
        publish: true,
        rust_version: None,
    }
}

#[test]
fn test_match_pkg_spec() {
    // crates.io
    let pkg = &new_pkg(
        "registry+https://github.com/rust-lang/crates.io-index#regex@1.4.3",
        "regex",
        "1.4.3",
    );
    // name
    assert!(match_pkg_spec(pkg, "regex").unwrap());
    assert!(!match_pkg_spec(pkg, "regex-syntax").unwrap());
    // name+version
    assert!(match_pkg_spec(pkg, "regex@1").unwrap());
    assert!(match_pkg_spec(pkg, "regex@1.4").unwrap());
    assert!(match_pkg_spec(pkg, "regex@1.4.3").unwrap());
    assert!(match_pkg_spec(pkg, "regex:1.4").unwrap());
    assert!(!match_pkg_spec(pkg, "regex@2").unwrap());
    assert!(!match_pkg_spec(pkg, "regex@1.5").unwrap());
    assert!(!match_pkg_spec(pkg, "regex@1.4.2").unwrap());
    assert!(!match_pkg_spec(pkg, "regex@1.4.4").unwrap());
    // spec
    assert!(match_pkg_spec(pkg, "https://github.com/rust-lang/crates.io-index#regex").unwrap());
    assert!(
        match_pkg_spec(pkg, "https://github.com/rust-lang/crates.io-index#regex@1.4.3").unwrap()
    );
    assert!(match_pkg_spec(pkg, "https://github.com/rust-lang/crates.io-index#regex@1.4").unwrap());
    assert!(
        match_pkg_spec(pkg, "registry+https://github.com/rust-lang/crates.io-index#regex@1.4.3")
            .unwrap()
    );

    // git
    let pkg = &new_pkg(
        "git+ssh://git@github.com/rust-lang/regex.git?branch=dev#regex@1.4.3",
        "regex",
        "1.4.3",
    );
    assert!(match_pkg_spec(pkg, "regex").unwrap());
    assert!(match_pkg_spec(pkg, "ssh://git@github.com/rust-lang/regex.git#regex@1.4.3").unwrap());
    assert!(
        match_pkg_spec(pkg, "git+ssh://git@github.com/rust-lang/regex.git#regex@1.4.3").unwrap()
    );
    assert!(
        match_pkg_spec(pkg, "git+ssh://git@github.com/rust-lang/regex.git?branch=dev#regex@1.4.3")
            .unwrap()
    );
    let pkg = &new_pkg("git+https://github.com/rust-lang/cargo#0.52.0", "cargo", "0.52.0");
    assert!(match_pkg_spec(pkg, "https://github.com/rust-lang/cargo#0.52.0").unwrap());
    assert!(match_pkg_spec(pkg, "git+https://github.com/rust-lang/cargo#0.52.0").unwrap());
    assert!(!match_pkg_spec(pkg, "https://github.com/rust-lang/cargo#cargo-platform@0.1.2").unwrap());

    // local
    let pkg = &new_pkg("path+file:///path/to/my/project/foo#1.1.8", "foo", "1.1.8");
    assert!(match_pkg_spec(pkg, "foo").unwrap());
    assert!(match_pkg_spec(pkg, "file:///path/to/my/project/foo").unwrap());
    assert!(match_pkg_spec(pkg, "file:///path/to/my/project/foo#1.1.8").unwrap());
    assert!(match_pkg_spec(pkg, "path+file:///path/to/my/project/foo#1.1").unwrap());
    assert!(match_pkg_spec(pkg, "path+file:///path/to/my/project/foo#1.1.8").unwrap());
}

#[test]
fn match_pkg_spec_trailing_newline_and_errors() {
    let pkg = &new_pkg("path+file:///p/foo#1.1.8", "foo", "1.1.8");
    assert!(match_pkg_spec(pkg, "file:///p/foo#1.1.8\n").unwrap());
    assert!(!match_pkg_spec(pkg, "bar").unwrap());
    let bad = &new_pkg("not-a-spec", "foo", "1.1.8");
    assert_eq!(
        match_pkg_spec(bad, "file:///p/foo").unwrap_err().message(),
        "invalid pkg spec (not-a-spec) from cargo-metadata"
    );
    let bad_version = &new_pkg("path+file:///p/foo#1.1", "foo", "1.1");
    assert_eq!(
        match_pkg_spec(bad_version, "foo@1").unwrap_err().message(),
        "invalid pkg version (1.1) from cargo-metadata"
    );
}

#[test]
fn cargo_version_from_verbose_output() {
    let out = "cargo 1.75.0 (1d8b05cdd 2023-11-20)\nrelease: 1.75.0\ncommit-hash: x\n";
    let v = version(out, "cargo -vV").unwrap();
    assert_eq!((v.major, v.minor, v.patch), (1, 75, Some(0)));
    let v = version("release: 1.80.1-nightly\r\n", "cargo -vV").unwrap();
    assert_eq!((v.major, v.minor, v.patch), (1, 80, Some(1)));
    assert_eq!(
        version("nothing here", "cargo -vV").unwrap_err().message(),
        "unexpected output from cargo -vV: nothing here"
    );
    assert_eq!(
        version("release: 1.80\n", "cargo -vV").unwrap_err().message(),
        "unexpected output from cargo -vV: release: 1.80\n"
    );
}

#[test]
fn metadata_args_without_and_with_dependency_features() {
    let none: Vec<String> = vec![];
    assert_eq!(metadata_args(None, false, &none, "x86_64-unknown-linux-gnu"), vec![
        "metadata", "--format-version=1", "--no-deps"
    ]);
    assert_eq!(metadata_args(Some("a/Cargo.toml"), true, &none, "x86_64-unknown-linux-gnu"), vec![
        "metadata",
        "--format-version=1",
        "--manifest-path",
        "a/Cargo.toml",
        "--filter-platform",
        "x86_64-unknown-linux-gnu"
    ]);
    let targets = vec!["wasm32-unknown-unknown".to_string(), "aarch64-apple-darwin".to_string()];
    assert_eq!(metadata_args(None, true, &targets, "host"), vec![
        "metadata",
        "--format-version=1",
        "--filter-platform",
        "wasm32-unknown-unknown",
        "--filter-platform",
        "aarch64-apple-darwin"
    ]);
}

#[test]
fn include_deps_features_needs_cargo_1_41() {
    assert_eq!(
        check_include_deps_features(40, true).unwrap_err().message(),
        "--include-deps-features requires Cargo 1.41 or later"
    );
    assert!(check_include_deps_features(41, true).is_ok());
    assert!(check_include_deps_features(30, false).is_ok());
}

#[test]
fn own_id_matches_where_the_name_begins_it() {
    for (id, name) in [
        ("git+https://github.com/rust-lang/git#git@1.0.0", "git"),
        ("path+file:///w/path#path@1.0.0", "path"),
        ("registry+https://github.com/rust-lang/crates.io-index#registry@1.0.0", "registry"),
    ] {
        let pkg = &new_pkg(id, name, "1.0.0");
        assert!(match_pkg_spec(pkg, id).unwrap());
        assert!(match_pkg_spec(pkg, name).unwrap());
        assert!(match_pkg_spec(pkg, &format!("{name}@1.0")).unwrap());
        assert!(!match_pkg_spec(pkg, &format!("{name}-other")).unwrap());
        assert!(!match_pkg_spec(pkg, "git+https://github.com/rust-lang/other#git@1.0.0").unwrap());
    }
}
