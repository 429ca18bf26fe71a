use devbar::repos::{add_found_repos, skip_entry};

#[test]
fn walk_skips() {
    assert!(skip_entry(false, Some("src")));
    assert!(skip_entry(true, Some(".git")));
    assert!(skip_entry(true, Some(".cache")));
    assert!(!skip_entry(true, Some(".")));
    assert!(skip_entry(true, Some("node_modules")));
    assert!(skip_entry(true, Some("target")));
    assert!(skip_entry(true, Some("dist")));
    assert!(skip_entry(true, Some("build")));
    assert!(skip_entry(true, Some("vendor")));
    assert!(!skip_entry(true, Some("vendors")));
    assert!(!skip_entry(true, Some("projects")));
    assert!(!skip_entry(true, None));
    assert!(!skip_entry(true, Some("")));
}

#[test]
fn found_repos_are_listed_once() {
    let p = |n: &str, path: &str| (n.to_string(), path.to_string());
    let mut repos = vec![p("a", "/x/a")];
    add_found_repos(&mut repos, &vec![p("b", "/x/b"), p("a2", "/x/a"), p("b", "/x/b"), p("c", "/y/c")]);
    assert_eq!(repos, vec![p("a", "/x/a"), p("b", "/x/b"), p("c", "/y/c")]);
}
