use devbar::clock::iso_timestamp_of;
use devbar::recent::{
    get_recent_files, git_log_entries, human_age, log_candidates, make_recent_file, porcelain_paths,
    RecentFile,
};

fn file(path: &str, ts: i64) -> (i64, RecentFile) {
    (ts, make_recent_file(path.to_string(), "C:\\projects\\app", "app", ts, 2_000_000, true))
}

#[test]
fn test_recent_files_performance() {
    let dirs = vec!["C:\\projects".to_string()];
    let start = std::time::Instant::now();
    let mut cands = Vec::new();
    for d in &dirs {
        let repo_path = format!("{}\\devbar", d);
        cands.extend(log_candidates("1700000000\nsrc/main.rs\nREADME.md\n", &repo_path, "devbar", 1_700_000_600, true));
    }
    let files = get_recent_files(&cands, 5);
    let elapsed = start.elapsed();
    println!("\n=== RECENT FILES TEST ===");
    println!("Elapsed: {:?}", elapsed);
    println!("Found files ({}):", files.len());
    for f in &files {
        println!("  - [{}] {} ({}) -> {}", f.repo, f.filename, f.age, f.absolute_path);
    }
    assert!(!files.is_empty());
    assert_eq!(files[0].absolute_path, "C:\\projects\\devbar\\src\\main.rs");
    assert_eq!(files[0].filename, "main.rs");
    assert_eq!(files[0].age, "10m ago");
    assert_eq!(files[0].timestamp, "2023-11-14T22:13:20Z");
}

#[test]
fn ages() {
    assert_eq!(human_age(-5), "just now");
    assert_eq!(human_age(0), "just now");
    assert_eq!(human_age(119), "just now");
    assert_eq!(human_age(120), "2m ago");
    assert_eq!(human_age(3599), "59m ago");
    assert_eq!(human_age(3600), "1h ago");
    assert_eq!(human_age(86399), "23h ago");
    assert_eq!(human_age(86400), "1d ago");
    assert_eq!(human_age(604799), "6d ago");
    assert_eq!(human_age(604800), "1w ago");
    assert_eq!(human_age(i64::MAX), "15250284452471w ago");
}

#[test]
fn porcelain_lines() {
    let paths = porcelain_paths("?? new.txt\nM  src/lib.rs\n M src/main.rs\nab\n M  \n").unwrap();
    // the two status columns are dropped before trimming: " M q" names q
    assert_eq!(paths, vec!["new.txt".to_string(), "src/lib.rs".to_string(), "src/main.rs".to_string()]);
    assert_eq!(porcelain_paths(" M q").unwrap(), vec!["q".to_string()]);
    assert_eq!(porcelain_paths("").unwrap(), Vec::<String>::new());
    // byte 3 falls inside a two-byte character
    assert_eq!(porcelain_paths("ab\u{e9}x\n"), None);
    assert_eq!(porcelain_paths("\u{e9}\u{e9}"), None);
    // three bytes in all: nothing after byte 3
    assert_eq!(porcelain_paths("\u{e9}x"), Some(vec![]));
}

#[test]
fn log_entries_keep_newest_per_path() {
    let out = "300\na.rs\nb.rs\n\n200\na.rs\nc.rs\n400\nc.rs\n99999999999999999999\nd.rs\n";
    let e = git_log_entries(out);
    assert_eq!(
        e,
        vec![(300, "a.rs".to_string()), (300, "b.rs".to_string()), (200, "c.rs".to_string()), (400, "c.rs".to_string())]
    );
    assert!(git_log_entries("x.rs\n").is_empty());
}

#[test]
fn ranking_newest_first_dedup_and_limit() {
    let cands = vec![file("a", 10), file("b", 30), file("a", 40), file("c", 30), file("d", 5)];
    let r = get_recent_files(&cands, 3);
    let names: Vec<&str> = r.iter().map(|f| f.relative_path.as_str()).collect();
    assert_eq!(names, vec!["a", "b", "c"]);
    assert_eq!(r[0].timestamp, "1970-01-01T00:00:40Z");
    // at most `limit` files: none for a limit of 0
    assert!(get_recent_files(&cands, 0).is_empty());
    assert_eq!(get_recent_files(&cands, 1).len(), 1);
    let all = get_recent_files(&cands, 10);
    assert_eq!(all.len(), 4);
    assert!(get_recent_files(&Vec::new(), 5).is_empty());
}

#[test]
fn recent_file_fields() {
    let f = make_recent_file("src/lib.rs".to_string(), "C:\\r", "r", -3, 7000, true);
    assert_eq!(f.filename, "lib.rs");
    assert_eq!(f.absolute_path, "C:\\r\\src\\lib.rs");
    assert_eq!(f.timestamp, "1969-12-31T23:59:57Z");
    assert_eq!(f.age, "1h ago");
    assert_eq!(f.repo, "r");
    // elsewhere the path keeps its forward slashes
    let g = make_recent_file("a/b.txt".to_string(), "/home/u/r", "r", 0, 0, false);
    assert_eq!(g.absolute_path, "/home/u/r/a/b.txt");
    assert_eq!(g.filename, "b.txt");
    assert_eq!(g.timestamp, "1970-01-01T00:00:00Z");
}

#[test]
fn iso_dates() {
    assert_eq!(iso_timestamp_of(0), "1970-01-01T00:00:00Z");
    assert_eq!(iso_timestamp_of(951782400), "2000-02-29T00:00:00Z");
    assert_eq!(iso_timestamp_of(1709251199), "2024-02-29T23:59:59Z");
    assert_eq!(iso_timestamp_of(-86400), "1969-12-31T00:00:00Z");
    assert_eq!(iso_timestamp_of(253402300800), "+10000-01-01T00:00:00Z");
    assert_eq!(iso_timestamp_of(-62167219200), "0000-01-01T00:00:00Z");
    assert_eq!(iso_timestamp_of(-62167219201), "-0001-12-31T23:59:59Z");
}
