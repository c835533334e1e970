use cargo_hack::command::{command_text, process_error, trim_line_ends};

fn strings(v: &[&str]) -> Vec<String> {
    v.iter().map(|s| s.to_string()).collect()
}

#[test]
fn command_text_hides_manifest_path_unless_full() {
    let leading = strings(&["check"]);
    let args = strings(&["--manifest-path", "member1/Cargo.toml", "--no-default-features"]);
    let features = strings(&["a", "b"]);
    let trailing = strings(&["--ignored"]);
    assert_eq!(
        command_text("cargo", &leading, &args, &features, &trailing, false),
        "cargo check --no-default-features --features a,b -- --ignored"
    );
    assert_eq!(
        command_text("/usr/bin/cargo", &leading, &args, &features, &trailing, true),
        "/usr/bin/cargo check --manifest-path member1/Cargo.toml --no-default-features --features a,b -- --ignored"
    );
    assert_eq!(command_text("cargo", &leading, &vec![], &vec![], &vec![], false), "cargo check");
}

#[test]
fn process_error_shows_status_and_output() {
    assert_eq!(process_error("could not execute process `x`", None, None, None), "could not execute process `x` (never executed)");
    assert_eq!(
        process_error("process didn't exit successfully: `x`", Some("exit status: 1"), Some("  \n"), Some("oops\n")),
        "process didn't exit successfully: `x` (exit status: 1)\n--- stderr\noops\n"
    );
    assert_eq!(
        process_error("m", Some("s"), Some("out"), None),
        "m (s)\n--- stdout\nout"
    );
}

#[test]
fn read_output_loses_line_ends_only() {
    assert_eq!(trim_line_ends("1.70.0\r\n\n"), "1.70.0");
    assert_eq!(trim_line_ends("  a b \t"), "  a b \t");
    assert_eq!(trim_line_ends("\n"), "");
}
