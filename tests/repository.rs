use nixgen::{compose_label, discover_root, git_status, is_marker_entry, label, render_status, CommitState, GenError, RepoRootConfig};

fn head(branch: Option<&str>, dirty: bool) -> Option<CommitState> {
    Some(CommitState { short_id: "3189cd3".to_string(), branch: branch.map(|b| b.to_string()), dirty })
}

#[test]
fn clean_branch_status() {
    assert_eq!(render_status(&head(Some("main"), false)), "3189cd3(main)");
}

#[test]
fn dirty_branch_status() {
    assert_eq!(render_status(&head(Some("main"), true)), "3189cd3(main)-dirty");
}

#[test]
fn detached_status() {
    assert_eq!(render_status(&head(None, false)), "3189cd3(detached)");
    assert_eq!(render_status(&head(None, true)), "3189cd3(detached)-dirty");
}

#[test]
fn no_commit_status() {
    assert_eq!(render_status(&None), "NoCommitFound");
}

#[test]
fn no_marker_anywhere_is_no_repository() {
    let checked = vec![("/a/b".to_string(), false), ("/a".to_string(), false), ("/".to_string(), false)];
    assert!(matches!(discover_root(&checked), Err(GenError::NoRepository)));
    assert!(matches!(discover_root(&Vec::new()), Err(GenError::NoRepository)));
}

#[test]
fn nearest_marked_ancestor_is_the_root() {
    let checked = vec![("/a/b/c".to_string(), false), ("/a/b".to_string(), true), ("/a".to_string(), true)];
    assert_eq!(discover_root(&checked).unwrap(), "/a/b");
}

#[test]
fn marker_is_a_git_directory() {
    assert!(is_marker_entry(".git", true));
    assert!(!is_marker_entry(".git", false));
    assert!(!is_marker_entry(".gitignore", true));
    assert!(!is_marker_entry("git", true));
}

#[test]
fn missing_repository_fails_to_open() {
    let r = git_status("/nonexistent/nixgen-test-dir/deeper");
    assert!(matches!(r, Err(GenError::Repository { .. })), "{:?}", r);
}

#[test]
fn label_propagates_repository_failure() {
    let r = label("/nonexistent/nixgen-test-dir/deeper");
    assert!(matches!(r, Err(GenError::Repository { .. })), "{:?}", r);
}

#[test]
fn label_layout() {
    assert_eq!(
        compose_label("brave-otter", "2024-05-01-12:30:00(CEST)", "3189cd3(main)-dirty"),
        "brave-otter-2024-05-01-12:30:00(CEST)-3189cd3(main)-dirty"
    );
}

#[test]
fn labels_with_different_names_share_the_status() {
    let status = render_status(&head(Some("main"), false));
    let a = compose_label("brave-otter", "2024-05-01-12:30:00(UTC)", &status);
    let b = compose_label("calm-heron", "2024-05-01-12:30:00(UTC)", &status);
    assert_ne!(a, b);
    assert!(a.ends_with("-3189cd3(main)"));
    assert!(b.ends_with("-3189cd3(main)"));
}

#[test]
fn repo_root_config_from_option() {
    assert!(matches!(RepoRootConfig::from_option(None), RepoRootConfig::Discover));
    match RepoRootConfig::from_option(Some("/src/flake".to_string())) {
        RepoRootConfig::Path(p) => assert_eq!(p, "/src/flake"),
        other => panic!("unexpected {:?}", other),
    }
}
