use devbar::git::CommandOutput;
use devbar::search::{query_searchable, search_lowered, search_repos, RepoSearchInput};

fn ok(s: &str) -> Option<CommandOutput> {
    Some(CommandOutput { success: true, stdout: s.to_string() })
}

#[test]
fn test_search_repos_query() {
    let repos = vec![
        RepoSearchInput {
            name: "MainSite".to_string(),
            path: "C:\\projects\\MainSite".to_string(), windows: true,
            branch: ok("main\n"),
            log: Some("abc123 Fix main menu\ndef456 Tidy up\n0f0f0f0\n".to_string()),
            files: Some("src/main.rs\nREADME.md\ndocs/Domain/notes.txt\n\n".to_string()),
        },
        RepoSearchInput {
            name: "other".to_string(),
            path: "C:\\projects\\other".to_string(), windows: true,
            branch: Some(CommandOutput { success: false, stdout: "main".to_string() }),
            log: None,
            files: None,
        },
    ];
    let hits = search_repos(&repos, "main");
    println!("SEARCH HITS FOR 'main': {}", hits.len());
    for h in &hits {
        println!("  - [{}] {} ({})", h.kind, h.label, h.repo);
    }
    let kinds: Vec<&str> = hits.iter().map(|h| h.kind.as_str()).collect();
    assert_eq!(kinds, vec!["repo", "branch", "commit", "file", "file"]);
    assert_eq!(hits[0].label, "MainSite");
    assert_eq!(hits[0].open_path, "C:\\projects\\MainSite");
    assert_eq!(hits[1].label, "main (MainSite)");
    assert_eq!(hits[2].label, "Fix main menu");
    assert_eq!(hits[3].label, "src/main.rs");
    assert_eq!(hits[3].open_path, "C:\\projects\\MainSite\\src\\main.rs");
    assert_eq!(hits[4].label, "docs/Domain/notes.txt");
    assert_eq!(hits[4].open_path, "C:\\projects\\MainSite\\docs\\Domain\\notes.txt");
    for h in &hits {
        assert_eq!(h.repo, "MainSite");
        assert_eq!(h.repo_path, "C:\\projects\\MainSite");
    }
}

#[test]
fn short_queries_find_nothing() {
    let repos = vec![RepoSearchInput {
        name: "a".to_string(),
        path: "/a".to_string(), windows: true,
        branch: ok("a"),
        log: None,
        files: Some("a\n".to_string()),
    }];
    assert!(search_repos(&repos, "").is_empty());
    assert!(search_repos(&repos, "a").is_empty());
    // one character of two bytes is long enough
    let r = vec![RepoSearchInput { name: "caf\u{e9}".to_string(), path: "/c".to_string(), windows: true, branch: None, log: None, files: None }];
    assert_eq!(search_repos(&r, "\u{e9}").len(), 1);
}

#[test]
fn results_are_capped_at_eighty() {
    let mut files = String::new();
    for i in 0..100 {
        files.push_str(&format!("dir/file{}.txt\n", i));
    }
    let repos = vec![RepoSearchInput { name: "r".to_string(), path: "/r".to_string(), windows: true, branch: None, log: None, files: Some(files) }];
    let hits = search_repos(&repos, "FILE");
    assert_eq!(hits.len(), 80);
    assert_eq!(hits[0].label, "dir/file0.txt");
    assert_eq!(hits[79].label, "dir/file79.txt");
}

#[test]
fn matching_ignores_case_of_both_sides() {
    let repos = vec![RepoSearchInput {
        name: "\u{c9}t\u{c9}Plan".to_string(),
        path: "/e".to_string(), windows: true,
        branch: None,
        log: None,
        files: None,
    }];
    let hits = search_repos(&repos, "\u{e9}T\u{c9}p");
    assert_eq!(hits.len(), 1);
    assert_eq!(hits[0].kind, "repo");
    assert_eq!(hits[0].label, "\u{c9}t\u{c9}Plan");
    assert!(search_repos(&repos, "plans").is_empty());
}

#[test]
fn searchable_queries() {
    assert!(!query_searchable(""));
    assert!(!query_searchable("a"));
    assert!(query_searchable("ab"));
    assert!(query_searchable("\u{e9}"));
    assert!(query_searchable("\u{1F600}"));
}

#[test]
fn search_with_lowered_query() {
    let repos = vec![RepoSearchInput {
        name: "Alpha".to_string(),
        path: "/alpha".to_string(), windows: false,
        branch: ok("feature/ALPHA-1\n"),
        log: Some("1234567 Add alpha page\n".to_string()),
        files: Some("pages/Alpha.tsx\n".to_string()),
    }];
    let hits = search_lowered(&repos, "alpha");
    let labels: Vec<&str> = hits.iter().map(|h| h.label.as_str()).collect();
    assert_eq!(labels, vec!["Alpha", "feature/ALPHA-1 (Alpha)", "Add alpha page", "pages/Alpha.tsx"]);
    assert_eq!(hits[3].open_path, "/alpha/pages/Alpha.tsx");
    // the query is taken as given: capitals in it never match lowered text
    assert!(search_lowered(&repos, "Alpha").is_empty());
    // with a lowered query, a one-byte query is searched too
    assert_eq!(search_lowered(&repos, "a").len(), 4);
}
