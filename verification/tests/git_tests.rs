use devbar::git::{count_nonblank_lines, inspect_repo, scan_git_repos, CommandOutput, RepoProbe};

fn out(success: bool, s: &str) -> Option<CommandOutput> {
    Some(CommandOutput { success, stdout: s.to_string() })
}

#[test]
fn test_scan_projects() {
    let probes = vec![RepoProbe {
        name: Some("devbar".to_string()),
        path: "C:\\projects\\devbar".to_string(),
        status: out(true, " M src/main.rs\n?? notes.txt\n"),
        branch: out(true, "main\n"),
        unpushed: out(true, "abc123 wip\n"),
    }];
    let repos = scan_git_repos(&probes);
    println!("FOUND REPOS ({})", repos.len());
    for r in &repos {
        println!("  - {} (branch: {}, dirty: {}, changed: {})", r.name, r.branch, r.dirty, r.changed_files);
    }
    assert_eq!(repos.len(), 1);
    assert_eq!(repos[0].name, "devbar");
    assert_eq!(repos[0].path, "C:\\projects\\devbar");
    assert_eq!(repos[0].branch, "main");
    assert!(repos[0].dirty);
    assert_eq!(repos[0].changed_files, 2);
    assert_eq!(repos[0].unpushed_commits, 1);
}

#[test]
fn scan_skips_nameless_and_keeps_order() {
    let probes = vec![
        RepoProbe { name: None, path: "/".to_string(), status: None, branch: None, unpushed: None },
        RepoProbe {
            name: Some("b".to_string()),
            path: "/b".to_string(),
            status: out(true, ""),
            branch: out(false, "fatal: not a git repository\n"),
            unpushed: out(false, "fatal: no upstream\nsecond\n"),
        },
        RepoProbe { name: Some("c".to_string()), path: "/c".to_string(), status: None, branch: out(true, "  \n"), unpushed: None },
    ];
    let repos = scan_git_repos(&probes);
    assert_eq!(repos.len(), 2);
    assert_eq!(repos[0].name, "b");
    assert!(!repos[0].dirty);
    assert_eq!(repos[0].changed_files, 0);
    assert_eq!(repos[0].branch, "unknown");
    assert_eq!(repos[0].unpushed_commits, 0);
    assert_eq!(repos[1].name, "c");
    assert_eq!(repos[1].branch, "unknown");
}

#[test]
fn status_lines_count_even_when_git_fails() {
    let p = RepoProbe {
        name: Some("x".to_string()),
        path: "/x".to_string(),
        status: out(false, "a\n\n  \r\nb\r\n"),
        branch: out(true, " feature/x \n"),
        unpushed: out(true, "1 a\n2 b\n3 c\n"),
    };
    let r = inspect_repo(&p).unwrap();
    assert_eq!(r.changed_files, 2);
    assert!(r.dirty);
    assert_eq!(r.branch, "feature/x");
    assert_eq!(r.unpushed_commits, 3);
}

#[test]
fn nonblank_line_count() {
    assert_eq!(count_nonblank_lines(""), 0);
    assert_eq!(count_nonblank_lines("\n\n"), 0);
    assert_eq!(count_nonblank_lines("a\nb"), 2);
    assert_eq!(count_nonblank_lines("a\n \u{3000}\nb\n"), 2);
}
