use cargo_hack::args::{Args, Finish, Step};
use cargo_hack::command_line::read_command_line;

fn raw(args: &[&str]) -> Vec<String> {
    args.iter().map(|s| s.to_string()).collect()
}

/// Reads the command line and ends the parse.
fn read(args: &[&str]) -> Result<Args, String> {
    let line = read_command_line(raw(args)).map_err(|e| e.message().to_string())?;
    assert_eq!(line.step, Step::Continue);
    match line.state.complete(line.rest, u32::MAX).0 {
        Ok(Finish::Parsed(a)) => Ok(a),
        Ok(Finish::List) => Err("listing".to_string()),
        Err(e) => Err(e.message().to_string()),
    }
}

fn error(args: &[&str]) -> String {
    match read_command_line(raw(args)) {
        Ok(_) => panic!("{args:?} read"),
        Err(e) => e.message().to_string(),
    }
}

#[test]
fn optional_deps_does_not_take_the_next_flag() {
    let a = read(&["hack", "check", "--each-feature", "--optional-deps", "--exclude-features", "real"]).unwrap();
    assert_eq!(a.subcommand.as_deref(), Some("check"));
    assert_eq!(a.leading_args, vec!["check"]);
    assert!(a.each_feature);
    assert_eq!(a.optional_deps, Some(vec![]));
    assert_eq!(a.exclude_features, vec!["real"]);
    assert!(a.exclude_all_features);
}

#[test]
fn optional_deps_takes_a_value_or_an_attached_one() {
    let a = read(&["hack", "check", "--each-feature", "--optional-deps", "a,b"]).unwrap();
    assert_eq!(a.optional_deps, Some(vec!["a".to_string(), "b".to_string()]));
    let a = read(&["hack", "check", "--each-feature", "--optional-deps=c"]).unwrap();
    assert_eq!(a.optional_deps, Some(vec!["c".to_string()]));
    let a = read(&["hack", "check", "--each-feature", "--optional-deps"]).unwrap();
    assert_eq!(a.optional_deps, Some(vec![]));
}

#[test]
fn attached_values_and_short_groups() {
    let a = read(&["hack", "check", "--features=a,b", "-F", "c"]).unwrap();
    assert_eq!(a.features, vec!["a", "b", "c"]);
    let a = read(&["hack", "-vv", "check"]).unwrap();
    assert!(a.verbose);
    assert_eq!(a.subcommand.as_deref(), Some("check"));
}

#[test]
fn arguments_after_dashes_are_passed_on() {
    let a = read(&["hack", "test", "--", "--nocapture", "-x"]).unwrap();
    assert_eq!(a.leading_args, vec!["test"]);
    assert_eq!(a.trailing_args, vec!["--nocapture", "-x"]);
}

#[test]
fn lexer_errors_are_reported() {
    assert_eq!(error(&["hack", "check", "--workspace=x"]), "unexpected argument for option '--workspace': \"x\"");
    assert_eq!(error(&["hack", "check", "--manifest-path"]), "missing argument for option '--manifest-path'");
    assert_eq!(error(&["build"]), "expected subcommand 'hack', found argument 'build'");
    assert_eq!(error(&[]), "expected subcommand 'hack'");
}

#[test]
fn lone_quote_lists_are_refused() {
    assert_eq!(error(&["hack", "check", "--features", "'"]), "the value `'` is a lone quote and cannot be unquoted");
    let a = read(&["hack", "check", "--manifest-path", "'"]).unwrap();
    assert_eq!(a.manifest_path.as_deref(), Some("'"));
}

#[test]
fn help_is_asked_before_a_subcommand() {
    assert_eq!(read_command_line(raw(&["hack", "-h"])).unwrap().step, Step::PrintShortHelp);
    assert_eq!(read_command_line(raw(&["hack", "--help"])).unwrap().step, Step::PrintLongHelp);
    assert_eq!(read_command_line(raw(&["hack", "--version"])).unwrap().step, Step::PrintVersion);
}

#[test]
fn trailing_z_without_value_is_refused() {
    assert_eq!(read(&["hack", "check", "-Z"]).err().unwrap(), "`-Z` is given without its value");
    assert!(read(&["hack", "check", "-Z", "namespaced-features"]).is_ok());
}
