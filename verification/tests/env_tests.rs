use devbar::env_health::{
    gitignore_with_entry, is_file_ignored_in_gitignore, missing_example_error, repo_env_issues,
    scan_env_health, RepoEnvFiles,
};

#[test]
fn gitignore_matching() {
    let content = "# secrets\n  .env  \r\n/id_rsa\n*.credentials.json\n#.env.local\n";
    assert!(is_file_ignored_in_gitignore(content, ".env"));
    assert!(is_file_ignored_in_gitignore(content, "id_rsa"));
    assert!(is_file_ignored_in_gitignore(content, "credentials.json"));
    assert!(!is_file_ignored_in_gitignore(content, ".env.local"));
    assert!(!is_file_ignored_in_gitignore("", ".env"));
    assert!(!is_file_ignored_in_gitignore("node_modules", ".env"));
    // an extension pattern ignores every file with that extension
    assert!(is_file_ignored_in_gitignore("*.pem\n", "server.pem"));
    assert!(is_file_ignored_in_gitignore("  *.json", "credentials.json"));
    assert!(!is_file_ignored_in_gitignore("*.pem", "key.pe"));
    assert!(!is_file_ignored_in_gitignore("*.", "x."));
    assert!(!is_file_ignored_in_gitignore("*.pem", "server.pem.bak"));
}

#[test]
fn adding_to_gitignore() {
    assert_eq!(gitignore_with_entry("", ".env").as_deref(), Some(".env\n"));
    assert_eq!(gitignore_with_entry("target", ".env").as_deref(), Some("target\n.env\n"));
    assert_eq!(gitignore_with_entry("target\n", ".env").as_deref(), Some("target\n.env\n"));
    assert_eq!(gitignore_with_entry("/.env\n", ".env"), None);
    let once = gitignore_with_entry("a", "id_rsa").unwrap();
    assert!(is_file_ignored_in_gitignore(&once, "id_rsa"));
    assert_eq!(gitignore_with_entry(&once, "id_rsa"), None);
}

fn strings(v: &[&str]) -> Vec<String> {
    v.iter().map(|s| s.to_string()).collect()
}

#[test]
fn repo_issues() {
    let issues = repo_env_issues("C:\\p\\app", "app", &strings(&[".env.sample", ".env.dist", ".env.local", "id_rsa"]), ".env.local\n");
    assert_eq!(issues.len(), 1);
    assert_eq!(issues[0].issue_type, "unignored_secret");
    assert_eq!(issues[0].message, "File 'id_rsa' is present but not in .gitignore");
    assert_eq!(issues[0].file_name.as_deref(), Some("id_rsa"));

    let issues = repo_env_issues("/p", "p", &strings(&[".env.sample", ".env.dist", "credentials.json"]), "");
    assert_eq!(issues.len(), 2);
    assert_eq!(issues[0].issue_type, "missing_env");
    assert_eq!(issues[0].message, "Found .env.dist but missing local .env file");
    assert_eq!(issues[0].file_name.as_deref(), Some(".env"));
    assert_eq!(issues[0].example_file.as_deref(), Some(".env.dist"));
    assert_eq!(issues[1].file_name.as_deref(), Some("credentials.json"));
    assert_eq!(issues[1].example_file, None);

    assert!(repo_env_issues("/p", "p", &Vec::new(), "").is_empty());
}

#[test]
fn scanning_several_repos() {
    let repos = vec![
        RepoEnvFiles { path: "/a".to_string(), name: "a".to_string(), present: strings(&[".env"]), gitignore: String::new() },
        RepoEnvFiles { path: "/b".to_string(), name: "b".to_string(), present: strings(&[".env.example"]), gitignore: String::new() },
    ];
    let issues = scan_env_health(&repos);
    assert_eq!(issues.len(), 2);
    assert_eq!(issues[0].repo_name, "a");
    assert_eq!(issues[0].issue_type, "unignored_secret");
    assert_eq!(issues[1].repo_path, "/b");
    assert_eq!(issues[1].issue_type, "missing_env");
}

#[test]
fn copy_error_and_pem_keys() {
    assert_eq!(missing_example_error(".env.example"), "Example file '.env.example' does not exist");
    let present = strings(&["README.md", "server.pem", "src", "certs.pem", "pem", ".pem"]);
    let issues = repo_env_issues("/r", "r", &present, "certs.pem\n");
    let files: Vec<&str> = issues.iter().map(|i| i.file_name.as_deref().unwrap()).collect();
    assert_eq!(files, vec!["server.pem", ".pem"]);
    assert!(issues.iter().all(|i| i.issue_type == "unignored_secret"));
    assert_eq!(issues[0].message, "File 'server.pem' is present but not in .gitignore");
    // the fixed names come first, then the .pem files in the order listed
    let mixed = repo_env_issues("/r", "r", &strings(&["a.pem", "id_rsa"]), "");
    let files: Vec<&str> = mixed.iter().map(|i| i.file_name.as_deref().unwrap()).collect();
    assert_eq!(files, vec!["id_rsa", "a.pem"]);
    assert!(repo_env_issues("/r", "r", &strings(&["a.pem", "b.pem"]), "*.pem\n").is_empty());
}

#[test]
fn quick_fixes_clear_their_issues() {
    let present = strings(&[".env.example", "id_rsa", "credentials.json"]);
    let before = repo_env_issues("/r", "r", &present, "# keys\n");
    assert_eq!(before.len(), 3);
    // ignoring one secret removes its issue and keeps the others
    let fixed = gitignore_with_entry("# keys\n", "id_rsa").unwrap();
    let after = repo_env_issues("/r", "r", &present, &fixed);
    assert_eq!(after.len(), 2);
    assert!(after.iter().all(|i| i.file_name.as_deref() != Some("id_rsa")));
    // copying the example into place removes the missing-.env issue
    let with_env = strings(&[".env.example", ".env", "id_rsa", "credentials.json"]);
    let issues = repo_env_issues("/r", "r", &with_env, &fixed);
    assert!(issues.iter().all(|i| i.issue_type != "missing_env"));
    assert_eq!(issues.len(), 2);
    assert_eq!(issues[0].file_name.as_deref(), Some(".env"));
}
