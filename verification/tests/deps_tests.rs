use devbar::deps::{deps_from_sections, get_dep_versions, is_interesting, repo_deps, PackageSource};

fn find<'a>(deps: &'a [(String, String)], k: &str) -> Option<&'a str> {
    deps.iter().find(|(n, _)| n == k).map(|(_, v)| v.as_str())
}

fn source(name: &str, path: &str, package_json: Option<&str>) -> PackageSource {
    PackageSource {
        name: name.to_string(),
        path: path.to_string(),
        package_json: package_json.map(|t| t.to_string()),
        cargo_toml: None,
        pyproject_toml: None,
        requirements_txt: None,
        go_mod: None,
    }
}

#[test]
fn test_get_dep_versions() {
    let repos = vec![
        source(
            "web",
            "C:\\projects\\web",
            Some(
                r#"{"dependencies":{"react":"^18.2.0","lodash":"4.17.21","next":"~14.1.0"},
                    "devDependencies":{"typescript":"=5.3.3","next":"14.2.0"}}"#,
            ),
        ),
        source("api", "C:\\projects\\api", None),
        source("broken", "C:\\projects\\broken", Some("{ not json")),
        source("plain", "C:\\projects\\plain", Some(r#"{"dependencies":{"lodash":"1"}}"#)),
    ];
    let deps = get_dep_versions(&repos);
    println!("FOUND DEPS FOR REPOS: {}", deps.len());
    for d in &deps {
        println!("  - Repo: {} with {} packages", d.repo, d.deps.len());
    }
    assert_eq!(deps.len(), 1);
    assert_eq!(deps[0].repo, "web");
    assert_eq!(deps[0].ecosystem, "npm");
    assert_eq!(deps[0].path, "C:\\projects\\web");
    assert_eq!(deps[0].deps.len(), 3);
    assert_eq!(find(&deps[0].deps, "react"), Some("18.2.0"));
    // devDependencies come second and win
    assert_eq!(find(&deps[0].deps, "next"), Some("14.2.0"));
    assert_eq!(find(&deps[0].deps, "typescript"), Some("5.3.3"));
    assert_eq!(find(&deps[0].deps, "lodash"), None);
}

#[test]
fn versions_are_cleaned_and_non_strings_marked() {
    let d = repo_deps("r", "/r", r#"{"dependencies":{"vite":"^~=5.0.0","zod":3,"axios":"^^1.0"}}"#).unwrap();
    assert_eq!(find(&d.deps, "vite"), Some("5.0.0"));
    assert_eq!(find(&d.deps, "zod"), Some("?"));
    // each prefix character is stripped in its turn, repeats included
    assert_eq!(find(&d.deps, "axios"), Some("1.0"));
    assert_eq!(d.deps.len(), 3);
    // range marks go in any order and number
    let e = repo_deps("r", "/r", r#"{"dependencies":{"vue":"~^3","vite":"=~1.2","zod":"^"}}"#).unwrap();
    assert_eq!(find(&e.deps, "vue"), Some("3"));
    assert_eq!(find(&e.deps, "vite"), Some("1.2"));
    assert_eq!(find(&e.deps, "zod"), Some(""));
}

#[test]
fn repos_without_reported_packages_are_left_out() {
    assert!(repo_deps("r", "/r", r#"{"dependencies":{"left-pad":"1.0.0"}}"#).is_none());
    assert!(repo_deps("r", "/r", r#"{"name":"x"}"#).is_none());
    assert!(repo_deps("r", "/r", r#"{"dependencies":[1,2]}"#).is_none());
    assert!(repo_deps("r", "/r", "[]").is_none());
    assert!(repo_deps("r", "/r", "").is_none());
    let only_dev = repo_deps("r", "/r", r#"{"devDependencies":{"vue":"3.4.0"}}"#).unwrap();
    assert_eq!(only_dev.deps, vec![("vue".to_string(), "3.4.0".to_string())]);
}

#[test]
fn reported_package_list() {
    assert!(is_interesting("react"));
    assert!(is_interesting("@supabase/ssr"));
    assert!(is_interesting("drizzle-orm"));
    assert!(!is_interesting("React"));
    assert!(!is_interesting("lodash"));
    assert!(!is_interesting(""));
}

#[test]
fn deps_from_read_sections() {
    let m = |v: &[(&str, Option<&str>)]| {
        Some(Some(v.iter().map(|(k, x)| (k.to_string(), x.map(|s| s.to_string()))).collect::<Vec<_>>()))
    };
    let d = deps_from_sections(
        "r",
        "/r",
        m(&[("react", Some("^18.0.0")), ("zod", None), ("left-pad", Some("1"))]),
        m(&[("react", Some("~18.3.1")), ("vite", Some("5"))]),
    )
    .unwrap();
    assert_eq!(
        d.deps,
        vec![
            ("react".to_string(), "18.3.1".to_string()),
            ("zod".to_string(), "?".to_string()),
            ("vite".to_string(), "5".to_string()),
        ]
    );
    // text that is no JSON gives nothing, whatever the second section says
    assert!(deps_from_sections("r", "/r", None, m(&[("vue", Some("3"))])).is_none());
    // no dependencies object, but reported dev dependencies
    let only_dev = deps_from_sections("r", "/r", Some(None), m(&[("vue", Some("3"))])).unwrap();
    assert_eq!(only_dev.deps, vec![("vue".to_string(), "3".to_string())]);
    assert!(deps_from_sections("r", "/r", Some(None), Some(None)).is_none());
}

#[test]
fn other_manifests() {
    let mut p = source("multi", "/m", None);
    p.cargo_toml = Some(
        "[package]\nname = \"m\"\nversion = \"0.1.0\"\n\n[dependencies]\nserde = { version = \"1.0\", features = [\"derive\"] }\nregex = \"1.10\"\nlocal = { path = \"../local\" }\n# comment = \"x\"\n\n[dev-dependencies]\nproptest = \"1\"\n\n[features]\ndefault = []\n".to_string(),
    );
    p.pyproject_toml = Some(
        "[tool.poetry.dependencies]\npython = \"^3.11\"\nrequests = \"^2.31\"\n\n[tool.black]\nline-length = 88\n".to_string(),
    );
    p.requirements_txt = Some("# pinned\nflask==3.0.0\nnumpy>=1.26\n-r base.txt\nDjango == 5.0 ; python_version > \"3.9\"\n\n".to_string());
    p.go_mod = Some(
        "module example.com/m\n\ngo 1.22\n\nrequire github.com/pkg/errors v0.9.1\n\nrequire (\n\tgolang.org/x/sync v0.6.0\n\t// indirect deps\n\tgithub.com/pkg/errors v0.9.2 // indirect\n)\n".to_string(),
    );
    let d = get_dep_versions(&vec![p]);
    let eco: Vec<&str> = d.iter().map(|r| r.ecosystem.as_str()).collect();
    assert_eq!(eco, vec!["cargo", "poetry", "pip", "go"]);
    let pair = |k: &str, v: &str| (k.to_string(), v.to_string());
    assert_eq!(d[0].deps, vec![pair("serde", "1.0"), pair("regex", "1.10"), pair("local", "*"), pair("proptest", "1")]);
    assert_eq!(d[1].deps, vec![pair("requests", "^2.31")]);
    assert_eq!(d[2].deps, vec![pair("flask", "3.0.0"), pair("numpy", "*"), pair("Django", "5.0")]);
    assert_eq!(d[3].deps, vec![pair("github.com/pkg/errors", "v0.9.2"), pair("golang.org/x/sync", "v0.6.0")]);
    // a manifest that declares nothing gives no report
    let mut q = source("empty", "/e", None);
    q.cargo_toml = Some("[package]\nname = \"e\"\n".to_string());
    assert!(get_dep_versions(&vec![q]).is_empty());
}
