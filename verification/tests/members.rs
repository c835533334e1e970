use cargo_hack::members::select_members;

fn strings(v: &[&str]) -> Vec<String> {
    v.iter().map(|s| s.to_string()).collect()
}

#[test]
fn workspace_skips_excluded_and_warns() {
    let names = strings(&["a", "b", "c"]);
    let sel = select_members(&names, "/ws", true, &strings(&["b", "z"]), &Vec::new(), None).unwrap();
    assert_eq!(sel.members, vec![0, 2]);
    assert!(!sel.multiple);
    assert_eq!(sel.warnings, vec!["excluded package(s) `z` not found in workspace `/ws`".to_string()]);
}

#[test]
fn workspace_multiple_counts_saturating() {
    let names = strings(&["a", "b", "c"]);
    let sel = select_members(&names, "/ws", true, &Vec::new(), &Vec::new(), Some("a")).unwrap();
    assert_eq!(sel.members, vec![0, 1, 2]);
    assert!(sel.multiple);
    let sel = select_members(&names, "/ws", true, &strings(&["x", "y", "z", "w"]), &Vec::new(), None).unwrap();
    assert_eq!(sel.members, vec![0, 1, 2]);
    assert!(!sel.multiple);
    assert_eq!(sel.warnings.len(), 4);
}

#[test]
fn package_selects_named_in_workspace_order() {
    let names = strings(&["a", "b", "c"]);
    let sel = select_members(&names, "/ws", false, &Vec::new(), &strings(&["c", "a"]), Some("b")).unwrap();
    assert_eq!(sel.members, vec![0, 2]);
    assert!(sel.multiple);
    assert!(sel.warnings.is_empty());
}

#[test]
fn package_not_found_is_an_error() {
    let names = strings(&["a", "b"]);
    let err = select_members(&names, "/ws", false, &Vec::new(), &strings(&["a", "q", "r"]), None).unwrap_err();
    assert_eq!(err.message(), "package ID specification `q` matched no packages");
}

#[test]
fn no_flags_runs_current_package_or_all() {
    let names = strings(&["a", "b"]);
    let sel = select_members(&names, "/ws", false, &Vec::new(), &Vec::new(), Some("b")).unwrap();
    assert_eq!(sel.members, vec![1]);
    assert!(!sel.multiple);
    let sel = select_members(&names, "/ws", false, &Vec::new(), &Vec::new(), Some("zz")).unwrap();
    assert!(sel.members.is_empty());
    let sel = select_members(&names, "/ws", false, &Vec::new(), &Vec::new(), None).unwrap();
    assert_eq!(sel.members, vec![0, 1]);
    assert!(sel.multiple);
}

#[test]
fn package_no_packages() {
    let names = strings(&["member1", "member2"]);
    let err = select_members(&names, "/virtual", false, &Vec::new(), &strings(&["foo"]), None).unwrap_err();
    assert_eq!(err.message(), "package ID specification `foo` matched no packages");
}
