use devbar::alerts::{collect_alerts, tray_warning, AlertKind};
use devbar::git::RepoStatus;
use devbar::state::AppState;

fn repo(name: &str, changed: usize, unpushed: usize) -> RepoStatus {
    RepoStatus {
        name: name.to_string(),
        path: format!("/{}", name),
        dirty: changed > 0,
        changed_files: changed,
        unpushed_commits: unpushed,
        branch: "main".to_string(),
    }
}

fn disk(name: &str, status: &str) -> (String, String) {
    (name.to_string(), status.to_string())
}

#[test]
fn thresholds_give_alerts() {
    let disks = vec![disk("C:", "ok"), disk("D:", "critical"), disk("E:", "warning")];
    let repos = vec![repo("calm", 20, 5), repo("busy", 21, 6)];
    let a = collect_alerts(&disks, &repos);
    assert_eq!(a.len(), 3);
    assert!(matches!(a[0].kind, AlertKind::DiskCritical));
    assert_eq!(a[0].index, 1);
    assert_eq!(a[0].key, "disk_critical_D:");
    assert_eq!(a[0].title, "DevBar Alert \u{2014} Critical Disk");
    assert!(a[0].body.is_none());
    assert!(matches!(a[1].kind, AlertKind::RepoChanged));
    assert_eq!(a[1].index, 1);
    assert_eq!(a[1].key, "repo_changed_busy");
    assert_eq!(a[1].body.as_deref(), Some("Repo 'busy' has 21 changed files"));
    assert!(matches!(a[2].kind, AlertKind::RepoUnpushed));
    assert_eq!(a[2].key, "repo_unpushed_busy");
    assert_eq!(a[2].title, "DevBar Alert \u{2014} Unpushed Commits");
    assert_eq!(a[2].body.as_deref(), Some("Repo 'busy' has 6 unpushed commits"));
}

#[test]
fn each_alert_is_shown_once() {
    let mut st = AppState::new(vec![]);
    let disks = vec![disk("D:", "critical")];
    let repos = vec![repo("busy", 30, 0)];
    let first = st.record_alerts(&disks, &repos);
    assert_eq!(first.len(), 2);
    let second = st.record_alerts(&disks, &repos);
    assert!(second.is_empty());
    assert_eq!(st.notified_keys, vec!["disk_critical_D:".to_string(), "repo_changed_busy".to_string()]);
    // once the disk recovers its key is dropped, so a later crossing shows again
    let third = st.record_alerts(&vec![disk("D:", "ok")], &repos);
    assert!(third.is_empty());
    assert_eq!(st.notified_keys, vec!["repo_changed_busy".to_string()]);
    let fourth = st.record_alerts(&disks, &repos);
    assert_eq!(fourth.len(), 1);
    assert_eq!(fourth[0].key, "disk_critical_D:");
}

#[test]
fn duplicate_keys_in_one_pass_show_once() {
    let mut st = AppState::new(vec![]);
    let disks = vec![disk("D:", "critical"), disk("D:", "critical")];
    let shown = st.record_alerts(&disks, &vec![]);
    assert_eq!(shown.len(), 1);
    assert_eq!(shown[0].index, 0);
    assert_eq!(st.notified_keys, vec!["disk_critical_D:".to_string()]);
}

#[test]
fn tray_warning_icon() {
    assert!(!tray_warning(&vec![], &vec![]));
    assert!(!tray_warning(&vec![disk("C:", "warning")], &vec![repo("a", 20, 100)]));
    assert!(tray_warning(&vec![disk("C:", "critical")], &vec![]));
    assert!(tray_warning(&vec![], &vec![repo("a", 21, 0)]));
}
