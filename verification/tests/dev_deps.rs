use cargo_hack::dev_deps::{remove_dev_deps, try_remove_dev_deps};

#[test]
fn a() {
    let input = remove_dev_deps("\
[package]
[dependencies]
[[example]]
[dev-dependencies.opencl]
[dev-dependencies]");
    assert_eq!("\
[package]
[dependencies]
[[example]]
", input);
}

#[test]
fn b() {
    let input = remove_dev_deps("\
[package]
[dependencies]
[[example]]
[dev-dependencies.opencl]
[dev-dependencies]
");
    assert_eq!("\
[package]
[dependencies]
[[example]]
", input);
}

#[test]
fn c() {
    let input = remove_dev_deps("\
[dev-dependencies]
foo = { features = [] }
bar = \"0.1\"
");
    assert_eq!("\
         ", input);
}

#[test]
fn d() {
    let input = remove_dev_deps("\
[dev-dependencies.foo]
features = []

[dev-dependencies]
bar = { features = [], a = [] }

[dependencies]
bar = { features = [], a = [] }
");
    assert_eq!("\
[dependencies]
bar = { features = [], a = [] }
", input);
}

#[test]
fn many_lines() {
    let input = remove_dev_deps("\
[package]\n\n

[dev-dependencies.opencl]


[dev-dependencies]
");
    assert_eq!("\
[package]\n\n

", input);
}

#[test]
fn target_deps1() {
    let input = remove_dev_deps("\
[package]

[target.'cfg(unix)'.dev-dependencies]

[dependencies]
");
    assert_eq!("\
[package]

[dependencies]
", input);
}

#[test]
fn target_deps2() {
    let input = remove_dev_deps("\
[package]

[target.'cfg(unix)'.dev-dependencies]
foo = \"0.1\"

[target.'cfg(unix)'.dev-dependencies.bar]

[dev-dependencies]
foo = \"0.1\"

[target.'cfg(unix)'.dependencies]
foo = \"0.1\"
");
    assert_eq!("\
[package]

[target.'cfg(unix)'.dependencies]
foo = \"0.1\"
", input);
}

#[test]
fn target_deps3() {
    let input = remove_dev_deps("\
[package]

[target.'cfg(unix)'.dependencies]

[dev-dependencies]
");
    assert_eq!("\
[package]

[target.'cfg(unix)'.dependencies]

", input);
}

#[test]
fn target_deps4() {
    let input = remove_dev_deps("\
[package]

[target.'cfg(unix)'.dev-dependencies]
");
    assert_eq!("\
[package]

", input);
}

#[test]
fn not_table() {
    let input = remove_dev_deps("\
[package]
a = [dev-dependencies]
b = ['dev-dependencies']
c = [\"dev-dependencies\"]
# [dev-dependencies]

    [dev-dependencies]

    [dependencies]

    [target.'cfg(unix)'.dev-dependencies]
    foo = \"0.1\"


\t[dev-dependencies]
\tfoo = \"0.1\"
");
    assert_eq!("\
[package]
a = [dev-dependencies]
b = ['dev-dependencies']
c = [\"dev-dependencies\"]
# [dev-dependencies]

    [dependencies]

", input);
}

#[test]
fn not_table_multi_line() {
    let input = remove_dev_deps("\
[package]
foo = [
    ['dev-dependencies'],
    [\"dev-dependencies\"]
]
");
    assert_eq!("\
[package]
foo = [
    ['dev-dependencies'],
    [\"dev-dependencies\"]
]
", input);
}

// Regression tests for bugs caught by fuzzing.
#[test]
fn fuzz() {
    let tests = &["'.'='''Mmm]\n\n[  dev-dependenciesh\t'''", "'.'='''M]\n[target.M'''"];
    for &test in tests {
        assert!(toml::from_str::<toml::Value>(test).is_ok());
        let result = remove_dev_deps(test);
        toml::from_str::<toml::Value>(&result).unwrap();
    }

    // Known defect, not intended behaviour: a header-like line inside a
    // multi-line string is taken for a table header, so the removal leaves
    // text that is no valid TOML. These cases are still to be fixed.
    let fail_tests = &["'.'='''m\n[ dev-dependencies   ] '''"];
    for &test in fail_tests {
        assert!(toml::from_str::<toml::Value>(test).is_ok());
        let result = remove_dev_deps(test);
        toml::from_str::<toml::Value>(&result).unwrap_err();
    }
}

#[test]
fn remove_dev_deps_refuses_what_panics() {
    // a header that ends the text right after its name
    assert_eq!(try_remove_dev_deps("[dev-dependencies"), None);
    assert_eq!(try_remove_dev_deps("[dev-dependencies  \n"), None);
    // text without tables is kept
    assert_eq!(try_remove_dev_deps("a = 1\n").unwrap(), "a = 1\n");
    // non-ASCII text is kept where no table is removed
    assert_eq!(
        try_remove_dev_deps("[package]\nname = \"\u{e9}\u{3000}\"\n[x]\n").unwrap(),
        "[package]\nname = \"\u{e9}\u{3000}\"\n[x]\n"
    );
    // a header after wide characters is still found
    assert_eq!(
        try_remove_dev_deps("[package]\n# \u{e9}\u{e9}\n[dev-dependencies]\na = 1\n").unwrap(),
        "[package]\n# \u{e9}\u{e9}\n"
    );
}

#[test]
fn text_the_scan_cannot_go_through_is_read_as_toml() {
    let header = format!("[{}dev-dependencies]", "\u{a0}".repeat(8));
    let text = format!(
        "[package]\nname = \"a\"\ndescription = \"\"\"\n{header}\n\"\"\"\n\n[dev-dependencies]\nb = \"1\"\n"
    );
    assert!(try_remove_dev_deps(&text).is_none());
    let out = remove_dev_deps(&text);
    assert!(out.contains(&header));
    assert!(out.contains("name = \"a\""));
    assert!(!out.contains("b = \"1\""));
}

#[test]
fn text_that_is_no_toml_and_cannot_be_scanned_is_kept() {
    let text = format!("[{}dev-dependencies] = = =\n", "\u{a0}".repeat(8));
    assert!(try_remove_dev_deps(&text).is_none());
    assert_eq!(remove_dev_deps(&text), text);
}

#[test]
fn text_without_dev_dependencies_is_unchanged() {
    let text = "[package]\nname = \"a\"\n\n[target.'cfg(unix)'.dependencies]\nb = \"1\"\n\n[features]\nx = []\n";
    assert_eq!(remove_dev_deps(text), text);
}
