use vss::worktree::{Worktree, WorktreeManager};

#[test]
fn test_parse_worktree_output() {
    let output = "worktree /home/user/project\nHEAD 1234567890abcdef1234567890abcdef12345678\nbranch refs/heads/main\n\nworktree /home/user/project-feature\nHEAD abcdef1234567890abcdef1234567890abcdef12\nbranch refs/heads/feature-branch\n\nworktree /home/user/project-detached\nHEAD fedcba0987654321fedcba0987654321fedcba09\ndetached\n";

    let worktrees = WorktreeManager::parse_worktree_output(output).unwrap();

    assert_eq!(worktrees.len(), 3);

    // Main worktree
    assert_eq!(worktrees[0].path, "/home/user/project");
    assert_eq!(worktrees[0].branch, "main");
    assert_eq!(
        worktrees[0].head,
        "1234567890abcdef1234567890abcdef12345678"
    );

    // Feature branch worktree
    assert_eq!(worktrees[1].path, "/home/user/project-feature");
    assert_eq!(worktrees[1].branch, "feature-branch");
    assert_eq!(
        worktrees[1].head,
        "abcdef1234567890abcdef1234567890abcdef12"
    );

    // Detached worktree
    assert_eq!(worktrees[2].path, "/home/user/project-detached");
    assert_eq!(worktrees[2].branch, "(detached)");
    assert_eq!(
        worktrees[2].head,
        "fedcba0987654321fedcba0987654321fedcba09"
    );
}

#[test]
fn test_worktree_display_name() {
    let worktree = Worktree {
        path: "/home/user/project/worktrees/feature".to_string(),
        branch: "feature-branch".to_string(),
        head: "abc123".to_string(),
    };

    let display_name = worktree.display_name("/home/user/project");

    assert_eq!(display_name, "feature-branch (worktrees/feature)");
}

#[test]
fn test_worktree_is_main() {
    let main_worktree = Worktree {
        path: "/home/user/project".to_string(),
        branch: "main".to_string(),
        head: "abc123".to_string(),
    };

    let feature_worktree = Worktree {
        path: "/home/user/project/worktrees/feature".to_string(),
        branch: "feature".to_string(),
        head: "def456".to_string(),
    };

    assert!(main_worktree.is_main("/home/user/project"));
    assert!(!feature_worktree.is_main("/home/user/project"));
}

#[test]
fn test_worktree_relative_path_outside_base() {
    let worktree = Worktree {
        path: "/elsewhere/tree".to_string(),
        branch: "main".to_string(),
        head: "abc".to_string(),
    };
    assert_eq!(worktree.relative_path("/home/user/project"), "/elsewhere/tree");
    assert_eq!(worktree.display_name("/home/user/project"), "main (/elsewhere/tree)");
}

#[test]
fn test_worktree_display_name_of_main() {
    let worktree = Worktree {
        path: "/home/user/project".to_string(),
        branch: "main".to_string(),
        head: "abc".to_string(),
    };
    assert_eq!(worktree.display_name("/home/user/project"), "main");
}
