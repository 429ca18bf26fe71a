use devbar::text::names_ascending;
use devbar::scripts::{get_repo_scripts, missing_repo_error, script_outcome, RepoMarkers};

fn markers() -> RepoMarkers {
    RepoMarkers { exists: true, npm_scripts: None, cargo_toml: false, compose_file: false, git_dir: false, windows: false }
}

#[test]
fn actions_in_order() {
    let mut m = markers();
    m.npm_scripts = Some(vec![("build".to_string(), "vite build".to_string()), ("dev".to_string(), "vite".to_string())]);
    m.cargo_toml = true;
    m.compose_file = true;
    m.git_dir = true;
    let a = get_repo_scripts(&m);
    let names: Vec<&str> = a.iter().map(|x| x.name.as_str()).collect();
    assert_eq!(
        names,
        vec![
            "npm run build",
            "npm run dev",
            "cargo run",
            "cargo test",
            "cargo check",
            "docker compose up -d",
            "docker compose down",
            "git pull",
            "git fetch",
        ]
    );
    assert_eq!(a[0].command, "npm");
    assert_eq!(a[0].args, vec!["run".to_string(), "build".to_string()]);
    assert_eq!(a[0].category, "package");
    assert_eq!(a[0].description, "vite build");
    assert_eq!(a[2].description, "Build and run Rust project");
    assert_eq!(a[5].args, vec!["compose".to_string(), "up".to_string(), "-d".to_string()]);
    assert_eq!(a[6].description, "Stop and remove containers");
    assert_eq!(a[8].args, vec!["fetch".to_string(), "--all".to_string()]);
    assert_eq!(a[8].category, "git");
}

#[test]
fn npm_on_windows_and_missing_folder() {
    let mut m = markers();
    m.windows = true;
    m.npm_scripts = Some(vec![("test".to_string(), "jest".to_string())]);
    let a = get_repo_scripts(&m);
    assert_eq!(a.len(), 1);
    assert_eq!(a[0].command, "npm.cmd");
    m.exists = false;
    m.git_dir = true;
    assert!(get_repo_scripts(&m).is_empty());
    assert!(get_repo_scripts(&markers()).is_empty());
}

#[test]
fn run_outcomes() {
    let ok = script_outcome("exit status: 0", true, "out", "err");
    assert_eq!(ok, Ok("Exit Status: exit status: 0\n\n--- STDOUT ---\nout\n--- STDERR ---\nerr".to_string()));
    let bad = script_outcome("exit status: 1", false, "", "boom");
    assert_eq!(bad, Err("Exit Status: exit status: 1\n\n--- STDOUT ---\n\n--- STDERR ---\nboom".to_string()));
    assert_eq!(missing_repo_error("/nope"), "Repository path '/nope' does not exist");
}

#[test]
fn script_names_in_order() {
    let pairs = |v: &[&str]| v.iter().map(|n| (n.to_string(), "x".to_string())).collect::<Vec<_>>();
    assert!(names_ascending(&pairs(&["a", "b", "ba", "c"])));
    assert!(names_ascending(&pairs(&[])));
    assert!(names_ascending(&pairs(&["Z", "a", "\u{e9}"])));
    assert!(!names_ascending(&pairs(&["b", "a"])));
    assert!(!names_ascending(&pairs(&["a", "a"])));
    assert!(!names_ascending(&pairs(&["a", "c", "b"])));
    let mut m = markers();
    m.npm_scripts = Some(pairs(&["build", "dev", "lint"]));
    m.git_dir = true;
    let names: Vec<String> = get_repo_scripts(&m).into_iter().map(|a| a.name).collect();
    assert_eq!(names, vec!["npm run build", "npm run dev", "npm run lint", "git pull", "git fetch"]);
}
