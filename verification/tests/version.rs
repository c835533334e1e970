use cargo_hack::rustup::{install_toolchain, minor_version, version_range, Rustup};
use cargo_hack::version::{maybe_version, version_step, Version, VersionRange};

fn v(major: u32, minor: u32, patch: Option<u32>) -> Version {
    Version { major, minor, patch }
}

#[test]
fn version_from_str() {
    assert_eq!(Version::from_str("1.70").unwrap(), v(1, 70, None));
    assert_eq!(Version::from_str("1.70.2").unwrap(), v(1, 70, Some(2)));
    assert_eq!(Version::from_str("1").unwrap_err().message(), "missing minor version");
    assert_eq!(
        Version::from_str("").unwrap_err().message(),
        "cannot parse integer from empty string"
    );
    assert_eq!(Version::from_str("1.x").unwrap_err().message(), "invalid digit found in string");
    assert_eq!(
        Version::from_str("1.99999999999").unwrap_err().message(),
        "number too large to fit in target type"
    );
    assert_eq!(Version::from_str("1.2.3.4").unwrap_err().message(), "invalid digit found in string");
    assert_eq!(Version::from_str("+1.+2").unwrap(), v(1, 2, None));
}

#[test]
fn version_range_from_str() {
    let r = VersionRange::from_str("1.63..=1.70").unwrap();
    assert_eq!(r.start_inclusive, Some(v(1, 63, None)));
    assert_eq!(r.end_inclusive, Some(v(1, 70, None)));
    assert_eq!(VersionRange::warning("1.63..=1.70"), None);
    let r = VersionRange::from_str("1.63..1.70").unwrap();
    assert_eq!(r.end_inclusive, Some(v(1, 70, None)));
    assert_eq!(
        VersionRange::warning("1.63..1.70").unwrap(),
        "using `..` for inclusive range is deprecated; consider using `1.63..=1.70`"
    );
    let r = VersionRange::from_str("..=1.70").unwrap();
    assert_eq!(r.start_inclusive, None);
    let r = VersionRange::from_str("1.63").unwrap();
    assert_eq!((r.start_inclusive, r.end_inclusive), (Some(v(1, 63, None)), None));
    assert_eq!(r.to_text(), "1.63..=");
    assert_eq!(maybe_version("").unwrap(), None);
    assert!(VersionRange::from_str("1.63..=x").is_err());
}

#[test]
fn version_range_steps() {
    let r = VersionRange::from_str("1.60..=1.66").unwrap();
    let (vs, ws) = version_range(&r, 2, &[], None).unwrap();
    let minors: Vec<u32> = vs.iter().map(|v| v.minor).collect();
    assert_eq!(minors, vec![60, 62, 64, 66]);
    assert!(ws.is_empty());
    let r = VersionRange::from_str("1.77..1.76").unwrap();
    assert_eq!(
        version_range(&r, 1, &[], None).unwrap_err().message(),
        "specified version range `1.77..=1.76` is empty"
    );
    let r = VersionRange::from_str("0.45..").unwrap();
    assert_eq!(
        version_range(&r, 1, &[], Some(v(1, 80, Some(0)))).unwrap_err().message(),
        "major version must be 1"
    );
    let r = VersionRange::from_str("..=1.75").unwrap();
    assert_eq!(
        version_range(&r, 1, &[None], None).unwrap_err().message(),
        "no rust-version field in selected Cargo.toml's is specified"
    );
    let (vs, _) =
        version_range(&r, 1, &[Some("1.74.1".to_string()), Some("1.73".to_string())], None)
            .unwrap();
    let minors: Vec<u32> = vs.iter().map(|v| v.minor).collect();
    assert_eq!(minors, vec![73, 74, 75]);
    let r = VersionRange::from_str("1.77.1..").unwrap();
    let (vs, ws) = version_range(&r, 1, &[], Some(v(1, 78, Some(0)))).unwrap();
    assert_eq!(vs.len(), 2);
    assert_eq!(ws, vec![
        "--version-range always selects the latest patch release per minor release, not the specified patch release `1`"
            .to_string()
    ]);
}

#[test]
fn rustup_minor_version() {
    let out = "rustup 1.27.1 (54dd3d00f 2024-04-24)";
    assert_eq!(minor_version(out, "rustup --version").unwrap(), 27);
    assert_eq!(
        minor_version("cargo 1.27.1", "rustup --version").unwrap_err().message(),
        "unexpected output from rustup --version: cargo 1.27.1"
    );
    assert!(minor_version("rustup 1.27", "rustup --version").is_err());
    let found = minor_version("x", "rustup --version");
    assert_eq!(Rustup::new(&found).version, u32::MAX);
    assert_eq!(Rustup::new(&Ok(24)).version, 24);
}

#[test]
fn rustup_install_args() {
    assert_eq!(install_toolchain("+1.70", &[], true), None);
    assert_eq!(
        install_toolchain("+1.70", &[], false).unwrap(),
        vec!["toolchain", "add", "1.70", "--no-self-update"]
    );
    let targets = vec!["a".to_string(), "b".to_string()];
    assert_eq!(
        install_toolchain("1.70", &targets, true).unwrap(),
        vec!["toolchain", "add", "1.70", "--no-self-update", "--target", "a,b"]
    );
}

#[test]
fn range_text_reads_back() {
    let v = |major, minor, patch| Some(Version { major, minor, patch });
    for r in [
        VersionRange { start_inclusive: v(1, 60, None), end_inclusive: v(1, 70, Some(2)) },
        VersionRange { start_inclusive: None, end_inclusive: v(2, 0, None) },
    ] {
        let text = r.to_text();
        assert_eq!(VersionRange::from_str(&text).unwrap(), r, "{text}");
    }
    assert_eq!(
        VersionRange { start_inclusive: v(1, 60, None), end_inclusive: v(1, 70, Some(2)) }.to_text(),
        "1.60..=1.70.2"
    );
    // without an end, the text is no range that reads back
    let open = VersionRange { start_inclusive: v(1, 0, Some(0)), end_inclusive: None };
    assert_eq!(open.to_text(), "1.0.0..=");
    assert!(VersionRange::from_str(&open.to_text()).is_err());
}

#[test]
fn version_range_failure() {
    // zero step
    assert!(VersionRange::from_str("1.77..").is_ok());
    assert_eq!(version_step(Some("0")).unwrap_err().message(), "--version-step cannot be zero");
    assert_eq!(version_step(Some("2")).unwrap(), 2);
    assert_eq!(version_step(None).unwrap(), 1);
    assert_eq!(version_step(Some("70000")).unwrap_err().message(), "number too large to fit in target type");

    // empty
    for text in ["1.77..1.76", "1.77..=1.76"] {
        let r = VersionRange::from_str(text).unwrap();
        assert_eq!(
            version_range(&r, 1, &[], None).unwrap_err().message(),
            "specified version range `1.77..=1.76` is empty"
        );
    }

    // v0
    let r = VersionRange::from_str("0.45..").unwrap();
    let stable = Version { major: 1, minor: 80, patch: Some(0) };
    assert_eq!(version_range(&r, 1, &[], Some(stable)).unwrap_err().message(), "major version must be 1");

    // inclusive range without end expression
    assert_eq!(
        VersionRange::from_str("..=").unwrap_err().message(),
        "inclusive range `..=` must have end expression; consider using `..` or `..=<end>`"
    );
    assert_eq!(
        VersionRange::from_str("1.77..=").unwrap_err().message(),
        "inclusive range `1.77..=` must have end expression; consider using `1.77..` or `1.77..=<end>`"
    );

    // patch version
    let r = VersionRange::from_str("1.77.1..").unwrap();
    let (_, warnings) = version_range(&r, 1, &[], Some(stable)).unwrap();
    assert!(warnings.contains(
        &"--version-range always selects the latest patch release per minor release, not the specified patch release `1`"
            .to_string()
    ));

    // no rust-version
    let r = VersionRange::from_str("..=1.75").unwrap();
    assert_eq!(
        version_range(&r, 1, &[None], None).unwrap_err().message(),
        "no rust-version field in selected Cargo.toml's is specified"
    );
}
