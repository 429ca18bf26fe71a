//! Threshold alerts: which notifications to show, each once, and the tray warning.
use vstd::prelude::*;
use crate::git::{RepoStatus, RepoStatusView};
use crate::state::{AppState, dedup, dedup_strings};
use crate::text::{
    chars_eq, contains_string, decimal, has_string, push_decimal, push_str, string_of, to_chars,
};

verus! {

/// What an alert is about.
pub enum AlertKind {
    /// A disk is in critical state.
    DiskCritical,
    /// A repository has more than 20 changed files.
    RepoChanged,
    /// A repository has more than 5 unpushed commits.
    RepoUnpushed,
}

/// A notification to show. `index` is the position of the disk or repository
/// it is about in the list it came from. Disk alerts carry no body: it is
/// written from the disk's figures where they are known.
pub struct Alert {
    pub kind: AlertKind,
    pub index: usize,
    pub key: String,
    pub title: String,
    pub body: Option<String>,
}

pub struct AlertView {
    pub kind: AlertKind,
    pub index: nat,
    pub key: Seq<char>,
    pub title: Seq<char>,
    pub body: Option<Seq<char>>,
}

impl View for Alert {
    type V = AlertView;

    open spec fn view(&self) -> AlertView {
        AlertView {
            kind: self.kind,
            index: self.index as nat,
            key: self.key@,
            title: self.title@,
            body: match self.body {
                Some(b) => Some(b@),
                None => None,
            },
        }
    }
}

fn copy_kind(k: &AlertKind) -> (r: AlertKind)
    ensures
        r == *k,
{
    match k {
        AlertKind::DiskCritical => AlertKind::DiskCritical,
        AlertKind::RepoChanged => AlertKind::RepoChanged,
        AlertKind::RepoUnpushed => AlertKind::RepoUnpushed,
    }
}

impl Alert {
    pub fn copy(&self) -> (r: Alert)
        ensures
            r@ == self@,
    {
        Alert {
            kind: copy_kind(&self.kind),
            index: self.index,
            key: self.key.clone(),
            title: self.title.clone(),
            body: match &self.body {
                Some(b) => Some(b.clone()),
                None => None,
            },
        }
    }
}

pub open spec fn disk_alert(i: nat, name: Seq<char>) -> AlertView {
    AlertView {
        kind: AlertKind::DiskCritical,
        index: i,
        key: "disk_critical_"@ + name,
        title: "DevBar Alert \u{2014} Critical Disk"@,
        body: None,
    }
}

pub open spec fn changed_alert(i: nat, r: RepoStatusView) -> AlertView {
    AlertView {
        kind: AlertKind::RepoChanged,
        index: i,
        key: "repo_changed_"@ + r.name,
        title: "DevBar Alert \u{2014} Git Repo"@,
        body: Some("Repo '"@ + r.name + "' has "@ + decimal(r.changed_files) + " changed files"@),
    }
}

pub open spec fn unpushed_alert(i: nat, r: RepoStatusView) -> AlertView {
    AlertView {
        kind: AlertKind::RepoUnpushed,
        index: i,
        key: "repo_unpushed_"@ + r.name,
        title: "DevBar Alert \u{2014} Unpushed Commits"@,
        body: Some("Repo '"@ + r.name + "' has "@ + decimal(r.unpushed_commits) + " unpushed commits"@),
    }
}

/// The disk alerts: one per disk whose status is `critical`, in order.
pub open spec fn disk_candidates(disks: Seq<(Seq<char>, Seq<char>)>) -> Seq<AlertView>
    decreases disks.len(),
{
    if disks.len() == 0 {
        Seq::empty()
    } else {
        let before = disk_candidates(disks.drop_last());
        let d = disks.last();
        if d.1 == "critical"@ {
            before.push(disk_alert((disks.len() - 1) as nat, d.0))
        } else {
            before
        }
    }
}

/// The repository alerts, in order: for each repository, one when it has
/// more than 20 changed files, then one when it has more than 5 unpushed commits.
pub open spec fn repo_candidates(repos: Seq<RepoStatusView>) -> Seq<AlertView>
    decreases repos.len(),
{
    if repos.len() == 0 {
        Seq::empty()
    } else {
        let before = repo_candidates(repos.drop_last());
        let i = (repos.len() - 1) as nat;
        let r = repos.last();
        let with_changed = if r.changed_files > 20 { before.push(changed_alert(i, r)) } else { before };
        if r.unpushed_commits > 5 { with_changed.push(unpushed_alert(i, r)) } else { with_changed }
    }
}

/// Every alert whose threshold is crossed now, disks first.
pub open spec fn alert_candidates(disks: Seq<(Seq<char>, Seq<char>)>, repos: Seq<RepoStatusView>) -> Seq<AlertView> {
    disk_candidates(disks) + repo_candidates(repos)
}

/// The keys of alerts.
pub open spec fn alert_keys(s: Seq<AlertView>) -> Seq<Seq<char>> {
    s.map_values(|a: AlertView| a.key)
}

/// Going through the alerts in order: those to show (key neither notified
/// before nor shown earlier in the pass), and the keys known so far.
pub open spec fn alerts_to_show(cands: Seq<AlertView>, notified: Set<Seq<char>>) -> (Seq<AlertView>, Set<Seq<char>>)
    decreases cands.len(),
{
    if cands.len() == 0 {
        (Seq::empty(), notified)
    } else {
        let st = alerts_to_show(cands.drop_last(), notified);
        let c = cands.last();
        if st.1.contains(c.key) {
            st
        } else {
            (st.0.push(c), st.1.insert(c.key))
        }
    }
}

pub open spec fn repos_view(repos: Seq<RepoStatus>) -> Seq<RepoStatusView> {
    repos.map_values(|r: RepoStatus| r@)
}

fn is_critical(status: &String) -> (r: bool)
    ensures
        r == (status@ == "critical"@),
{
    let a = to_chars(status.as_str());
    let b = to_chars("critical");
    chars_eq(a.as_slice(), b.as_slice())
}

fn keyed(prefix: &str, name: &str) -> (r: String)
    ensures
        r@ == prefix@ + name@,
{
    let mut k = string_of(prefix);
    push_str(&mut k, name);
    k
}

fn make_repo_alert(kind_changed: bool, i: usize, r: &RepoStatus) -> (a: Alert)
    ensures
        a@ == (if kind_changed { changed_alert(i as nat, r@) } else { unpushed_alert(i as nat, r@) }),
{
    let name = r.name.as_str();
    let mut body = string_of("Repo '");
    push_str(&mut body, name);
    push_str(&mut body, "' has ");
    if kind_changed {
        push_decimal(&mut body, r.changed_files as u64);
        push_str(&mut body, " changed files");
        Alert {
            kind: AlertKind::RepoChanged,
            index: i,
            key: keyed("repo_changed_", name),
            title: string_of("DevBar Alert \u{2014} Git Repo"),
            body: Some(body),
        }
    } else {
        push_decimal(&mut body, r.unpushed_commits as u64);
        push_str(&mut body, " unpushed commits");
        Alert {
            kind: AlertKind::RepoUnpushed,
            index: i,
            key: keyed("repo_unpushed_", name),
            title: string_of("DevBar Alert \u{2014} Unpushed Commits"),
            body: Some(body),
        }
    }
}

/// Every alert whose threshold is crossed now: disks whose status is
/// `critical`, repositories with more than 20 changed files or more than 5
/// unpushed commits.
pub fn collect_alerts(disks: &Vec<(String, String)>, repos: &Vec<RepoStatus>) -> (r: Vec<Alert>)
    ensures
        r@.map_values(|a: Alert| a@) == alert_candidates(disks.deep_view(), repos_view(repos@)),
{
    let mut out: Vec<Alert> = Vec::new();
    let ghost dv = disks.deep_view();
    let mut i: usize = 0;
    while i < disks.len()
        invariant
            i <= disks.len(),
            dv == disks.deep_view(),
            out@.map_values(|a: Alert| a@) == disk_candidates(dv.take(i as int)),
        decreases disks.len() - i,
    {
        assert(dv.take(i + 1).drop_last() =~= dv.take(i as int));
        assert(dv.take(i + 1).last() == (disks[i as int].0@, disks[i as int].1@));
        if is_critical(&disks[i].1) {
            let ghost before = out@.map_values(|a: Alert| a@);
            out.push(Alert {
                kind: AlertKind::DiskCritical,
                index: i,
                key: keyed("disk_critical_", disks[i].0.as_str()),
                title: string_of("DevBar Alert \u{2014} Critical Disk"),
                body: None,
            });
            assert(out@.map_values(|a: Alert| a@) =~= before.push(disk_alert(i as nat, dv[i as int].0)));
        }
        i = i + 1;
    }
    assert(dv.take(disks.len() as int) =~= dv);
    let ghost head = out@.map_values(|a: Alert| a@);
    let ghost rv = repos_view(repos@);
    let mut j: usize = 0;
    while j < repos.len()
        invariant
            j <= repos.len(),
            rv == repos_view(repos@),
            out@.map_values(|a: Alert| a@) == head + repo_candidates(rv.take(j as int)),
        decreases repos.len() - j,
    {
        assert(rv.take(j + 1).drop_last() =~= rv.take(j as int));
        assert(rv.take(j + 1).last() == repos@[j as int]@);
        let r = &repos[j];
        if r.changed_files > 20 {
            let ghost before = out@.map_values(|a: Alert| a@);
            out.push(make_repo_alert(true, j, r));
            assert(out@.map_values(|a: Alert| a@) =~= before.push(changed_alert(j as nat, r@)));
        }
        if r.unpushed_commits > 5 {
            let ghost before = out@.map_values(|a: Alert| a@);
            out.push(make_repo_alert(false, j, r));
            assert(out@.map_values(|a: Alert| a@) =~= before.push(unpushed_alert(j as nat, r@)));
        }
        j = j + 1;
    }
    assert(rv.take(repos.len() as int) =~= rv);
    out
}

/// Whether the tray shows the warning icon: some disk is critical or some
/// repository has more than 20 changed files.
pub open spec fn spec_tray_warning(disks: Seq<(Seq<char>, Seq<char>)>, repos: Seq<RepoStatusView>) -> bool {
    (exists|i: int| 0 <= i < disks.len() && disks[i].1 == "critical"@)
        || (exists|i: int| 0 <= i < repos.len() && repos[i].changed_files > 20)
}

/// Whether the tray shows the warning icon.
pub fn tray_warning(disks: &Vec<(String, String)>, repos: &Vec<RepoStatus>) -> (r: bool)
    ensures
        r == spec_tray_warning(disks.deep_view(), repos_view(repos@)),
{
    let mut i: usize = 0;
    while i < disks.len()
        invariant
            i <= disks.len(),
            forall|k: int| 0 <= k < i ==> disks.deep_view()[k].1 != "critical"@,
        decreases disks.len() - i,
    {
        if is_critical(&disks[i].1) {
            assert(disks.deep_view()[i as int].1 == "critical"@);
            return true;
        }
        i = i + 1;
    }
    let mut j: usize = 0;
    while j < repos.len()
        invariant
            j <= repos.len(),
            forall|k: int| 0 <= k < i ==> disks.deep_view()[k].1 != "critical"@,
            i == disks.len(),
            forall|k: int| 0 <= k < j ==> repos_view(repos@)[k].changed_files <= 20,
        decreases repos.len() - j,
    {
        if repos[j].changed_files > 20 {
            assert(repos_view(repos@)[j as int].changed_files > 20);
            return true;
        }
        j = j + 1;
    }
    false
}

impl AppState {
    /// Records the alerts whose thresholds are crossed now and returns those
    /// to show: each alert not notified before, once. Afterwards exactly the
    /// current alerts count as notified (alerts no longer crossed are dropped).
    pub fn record_alerts(&mut self, disks: &Vec<(String, String)>, repos: &Vec<RepoStatus>) -> (r: Vec<Alert>)
        ensures
            r@.map_values(|a: Alert| a@) == alerts_to_show(
                alert_candidates(disks.deep_view(), repos_view(repos@)),
                old(self).notified_keys.deep_view().to_set(),
            ).0,
            final(self).notified_keys.deep_view() == dedup(
                alert_keys(alert_candidates(disks.deep_view(), repos_view(repos@))),
            ),
            final(self).watch_dirs.deep_view() == old(self).watch_dirs.deep_view(),
            final(self).well_formed(),
    {
        proof {
            crate::state::law_dedup_exact(alert_keys(alert_candidates(disks.deep_view(), repos_view(repos@))));
        }
        let cands = collect_alerts(disks, repos);
        let ghost cv = cands@.map_values(|a: Alert| a@);
        let ghost notified0 = self.notified_keys.deep_view().to_set();
        let mut seen: Vec<String> = Vec::new();
        let mut k: usize = 0;
        while k < self.notified_keys.len()
            invariant
                k <= self.notified_keys.len(),
                seen.deep_view() == self.notified_keys.deep_view().take(k as int),
            decreases self.notified_keys.len() - k,
        {
            let ghost before = seen.deep_view();
            seen.push(self.notified_keys[k].clone());
            assert(seen.deep_view() =~= before.push(self.notified_keys[k as int]@));
            assert(self.notified_keys.deep_view().take(k + 1) =~= self.notified_keys.deep_view().take(
                k as int).push(self.notified_keys[k as int]@));
            k = k + 1;
        }
        assert(self.notified_keys.deep_view().take(self.notified_keys.len() as int)
            =~= self.notified_keys.deep_view());
        let mut shown: Vec<Alert> = Vec::new();
        let mut keys: Vec<String> = Vec::new();
        let mut i: usize = 0;
        while i < cands.len()
            invariant
                i <= cands.len(),
                cv == cands@.map_values(|a: Alert| a@),
                shown@.map_values(|a: Alert| a@) == alerts_to_show(cv.take(i as int), notified0).0,
                seen.deep_view().to_set() == alerts_to_show(cv.take(i as int), notified0).1,
                keys.deep_view() == alert_keys(cv.take(i as int)),
            decreases cands.len() - i,
        {
            assert(cv.take(i + 1).drop_last() =~= cv.take(i as int));
            assert(cv.take(i + 1).last() == cands@[i as int]@);
            let c = &cands[i];
            let ghost before_keys = keys.deep_view();
            keys.push(c.key.clone());
            assert(keys.deep_view() =~= before_keys.push(c.key@));
            assert(alert_keys(cv.take(i + 1)) =~= alert_keys(cv.take(i as int)).push(c.key@));
            let known = contains_string(&seen, c.key.as_str());
            proof {
                let sv = seen.deep_view();
                assert(has_string(seen@, c.key@) == sv.to_set().contains(c.key@)) by {
                    if has_string(seen@, c.key@) {
                        let j = choose|j: int| 0 <= j < seen@.len() && seen@[j]@ == c.key@;
                        assert(sv[j] == c.key@);
                    }
                    if sv.to_set().contains(c.key@) {
                        let j = choose|j: int| 0 <= j < sv.len() && sv[j] == c.key@;
                        assert(seen@[j]@ == c.key@);
                    }
                }
            }
            if !known {
                let ghost before_shown = shown@.map_values(|a: Alert| a@);
                let ghost before_seen = seen.deep_view();
                shown.push(c.copy());
                seen.push(c.key.clone());
                assert(shown@.map_values(|a: Alert| a@) =~= before_shown.push(c@));
                assert(seen.deep_view() =~= before_seen.push(c.key@));
                assert(seen.deep_view().to_set() =~= before_seen.to_set().insert(c.key@)) by {
                    broadcast use vstd::seq_lib::group_seq_properties;
                }
            }
            i = i + 1;
        }
        assert(cv.take(cands.len() as int) =~= cv);
        self.notified_keys = dedup_strings(&keys);
        shown
    }
}

// ---------------------------------------------------------------------------
// Laws
// ---------------------------------------------------------------------------

proof fn lemma_show_known(cands: Seq<AlertView>, notified: Set<Seq<char>>)
    ensures
        notified.subset_of(alerts_to_show(cands, notified).1),
        (forall|i: int| 0 <= i < cands.len() ==> notified.contains(#[trigger] cands[i].key))
            ==> alerts_to_show(cands, notified).0.len() == 0,
    decreases cands.len(),
{
    if cands.len() > 0 {
        lemma_show_known(cands.drop_last(), notified);
        if forall|i: int| 0 <= i < cands.len() ==> notified.contains(#[trigger] cands[i].key) {
            assert forall|i: int| 0 <= i < cands.drop_last().len() implies notified.contains(
                #[trigger] cands.drop_last()[i].key) by {
                assert(cands.drop_last()[i] == cands[i]);
            }
            assert(notified.contains(cands[cands.len() - 1].key));
        }
    }
}

proof fn lemma_shown_shape(cands: Seq<AlertView>, notified: Set<Seq<char>>)
    ensures
        ({
            let st = alerts_to_show(cands, notified);
            &&& forall|i: int| 0 <= i < st.0.len() ==> !notified.contains(#[trigger] st.0[i].key)
            &&& forall|i: int| 0 <= i < st.0.len() ==> st.1.contains(#[trigger] st.0[i].key)
            &&& forall|i: int, j: int| 0 <= i < j < st.0.len() ==> st.0[i].key != st.0[j].key
        }),
    decreases cands.len(),
{
    if cands.len() > 0 {
        lemma_shown_shape(cands.drop_last(), notified);
        lemma_show_known(cands.drop_last(), notified);
        let st = alerts_to_show(cands.drop_last(), notified);
        let c = cands.last();
        if !st.1.contains(c.key) {
            let r = st.0.push(c);
            assert forall|i: int| 0 <= i < r.len() implies st.1.insert(c.key).contains(#[trigger] r[i].key) by {
                if i < st.0.len() {
                    assert(r[i] == st.0[i]);
                }
            }
            assert forall|i: int, j: int| 0 <= i < j < r.len() implies r[i].key != r[j].key by {
                if j < st.0.len() {
                    assert(r[i] == st.0[i] && r[j] == st.0[j]);
                } else {
                    assert(r[i] == st.0[i]);
                    assert(st.1.contains(st.0[i].key));
                }
            }
            assert forall|i: int| 0 <= i < r.len() implies !notified.contains(#[trigger] r[i].key) by {
                if i < st.0.len() {
                    assert(r[i] == st.0[i]);
                } else {
                    assert(notified.subset_of(st.1));
                }
            }
        }
    }
}

proof fn lemma_repo_candidates(repos: Seq<RepoStatusView>)
    ensures
        forall|i: int| 0 <= i < repo_candidates(repos).len() ==> {
            let a = #[trigger] repo_candidates(repos)[i];
            &&& a.index < repos.len()
            &&& !(a.kind is DiskCritical)
            &&& a.kind is RepoChanged ==> a == changed_alert(a.index, repos[a.index as int])
                && repos[a.index as int].changed_files > 20
            &&& a.kind is RepoUnpushed ==> a == unpushed_alert(a.index, repos[a.index as int])
                && repos[a.index as int].unpushed_commits > 5
        },
        forall|k: int| 0 <= k < repos.len() && (#[trigger] repos[k]).changed_files > 20 ==>
            repo_candidates(repos).contains(changed_alert(k as nat, repos[k])),
        forall|k: int| 0 <= k < repos.len() && (#[trigger] repos[k]).unpushed_commits > 5 ==>
            repo_candidates(repos).contains(unpushed_alert(k as nat, repos[k])),
    decreases repos.len(),
{
    if repos.len() > 0 {
        let d = repos.drop_last();
        lemma_repo_candidates(d);
        let before = repo_candidates(d);
        let now = repo_candidates(repos);
        let n = (repos.len() - 1) as nat;
        let r = repos.last();
        let mid = if r.changed_files > 20 { before.push(changed_alert(n, r)) } else { before };
        assert(now == if r.unpushed_commits > 5 { mid.push(unpushed_alert(n, r)) } else { mid });
        assert forall|i: int| 0 <= i < now.len() implies {
            let a = #[trigger] now[i];
            &&& a.index < repos.len()
            &&& !(a.kind is DiskCritical)
            &&& a.kind is RepoChanged ==> a == changed_alert(a.index, repos[a.index as int])
                && repos[a.index as int].changed_files > 20
            &&& a.kind is RepoUnpushed ==> a == unpushed_alert(a.index, repos[a.index as int])
                && repos[a.index as int].unpushed_commits > 5
        } by {
            if i < before.len() {
                assert(now[i] == before[i]);
                assert(repos[before[i].index as int] == d[before[i].index as int]);
            } else if i < mid.len() {
                assert(now[i] == mid[i]);
            }
        }
        assert forall|k: int| 0 <= k < repos.len() && (#[trigger] repos[k]).changed_files > 20 implies
            now.contains(changed_alert(k as nat, repos[k])) by {
            if k < d.len() {
                assert(d[k] == repos[k]);
                let j = choose|j: int| 0 <= j < before.len() && before[j] == changed_alert(k as nat, d[k]);
                assert(now[j] == before[j]);
            } else {
                assert(mid[before.len() as int] == changed_alert(k as nat, repos[k]));
                assert(now[before.len() as int] == mid[before.len() as int]);
            }
        }
        assert forall|k: int| 0 <= k < repos.len() && (#[trigger] repos[k]).unpushed_commits > 5 implies
            now.contains(unpushed_alert(k as nat, repos[k])) by {
            if k < d.len() {
                assert(d[k] == repos[k]);
                let j = choose|j: int| 0 <= j < before.len() && before[j] == unpushed_alert(k as nat, d[k]);
                assert(now[j] == before[j]);
            } else {
                assert(now[mid.len() as int] == unpushed_alert(k as nat, repos[k]));
            }
        }
    }
}

proof fn lemma_disk_candidates(disks: Seq<(Seq<char>, Seq<char>)>)
    ensures
        forall|i: int| 0 <= i < disk_candidates(disks).len() ==> {
            let a = #[trigger] disk_candidates(disks)[i];
            &&& a.index < disks.len()
            &&& a == disk_alert(a.index, disks[a.index as int].0)
            &&& disks[a.index as int].1 == "critical"@
        },
        forall|k: int| 0 <= k < disks.len() && (#[trigger] disks[k]).1 == "critical"@ ==>
            disk_candidates(disks).contains(disk_alert(k as nat, disks[k].0)),
    decreases disks.len(),
{
    if disks.len() > 0 {
        let d = disks.drop_last();
        lemma_disk_candidates(d);
        let before = disk_candidates(d);
        let now = disk_candidates(disks);
        assert forall|i: int| 0 <= i < now.len() implies {
            let a = #[trigger] now[i];
            &&& a.index < disks.len()
            &&& a == disk_alert(a.index, disks[a.index as int].0)
            &&& disks[a.index as int].1 == "critical"@
        } by {
            if i < before.len() {
                assert(now[i] == before[i]);
                assert(disks[before[i].index as int] == d[before[i].index as int]);
            }
        }
        assert forall|k: int| 0 <= k < disks.len() && (#[trigger] disks[k]).1 == "critical"@ implies
            now.contains(disk_alert(k as nat, disks[k].0)) by {
            if k < d.len() {
                assert(d[k] == disks[k]);
                let j = choose|j: int| 0 <= j < before.len() && before[j] == disk_alert(k as nat, d[k].0);
                assert(now[j] == before[j]);
            } else {
                assert(now[before.len() as int] == disk_alert(k as nat, disks[k].0));
            }
        }
    }
}

/// Law: a disk raises an alert exactly when its status is `critical`; a
/// repository raises a changed-files alert exactly when it has more than 20
/// changed files ("Repo '<name>' has <n> changed files"), and an
/// unpushed-commits alert exactly when it has more than 5 unpushed commits
/// ("Repo '<name>' has <n> unpushed commits").
pub proof fn law_alert_thresholds(disks: Seq<(Seq<char>, Seq<char>)>, repos: Seq<RepoStatusView>)
    ensures
        forall|k: int| 0 <= k < disks.len() ==> ((#[trigger] disks[k]).1 == "critical"@ <==> exists|i: int|
            0 <= i < alert_candidates(disks, repos).len() && (#[trigger] alert_candidates(disks, repos)[i]).kind is DiskCritical
                && alert_candidates(disks, repos)[i].index == k),
        forall|k: int| 0 <= k < repos.len() ==> ((#[trigger] repos[k]).changed_files > 20 <==> exists|i: int|
            0 <= i < alert_candidates(disks, repos).len() && (#[trigger] alert_candidates(disks, repos)[i]).kind is RepoChanged
                && alert_candidates(disks, repos)[i].index == k),
        forall|k: int| 0 <= k < repos.len() ==> ((#[trigger] repos[k]).unpushed_commits > 5 <==> exists|i: int|
            0 <= i < alert_candidates(disks, repos).len() && (#[trigger] alert_candidates(disks, repos)[i]).kind is RepoUnpushed
                && alert_candidates(disks, repos)[i].index == k),
        forall|i: int| 0 <= i < alert_candidates(disks, repos).len() ==> {
            let a = #[trigger] alert_candidates(disks, repos)[i];
            &&& a.kind is RepoChanged ==> a.body == Some("Repo '"@ + repos[a.index as int].name + "' has "@
                + decimal(repos[a.index as int].changed_files) + " changed files"@)
            &&& a.kind is RepoUnpushed ==> a.body == Some("Repo '"@ + repos[a.index as int].name + "' has "@
                + decimal(repos[a.index as int].unpushed_commits) + " unpushed commits"@)
        },
{
    lemma_disk_candidates(disks);
    lemma_repo_candidates(repos);
    let dc = disk_candidates(disks);
    let rc = repo_candidates(repos);
    let c = alert_candidates(disks, repos);
    let n = dc.len() as int;
    assert forall|i: int| 0 <= i < c.len() implies (#[trigger] c[i]) == (if i < n { dc[i] } else { rc[i - n] }) by {}
    assert forall|k: int| 0 <= k < disks.len() implies ((#[trigger] disks[k]).1 == "critical"@ <==> exists|i: int|
        0 <= i < c.len() && (#[trigger] c[i]).kind is DiskCritical && c[i].index == k) by {
        if disks[k].1 == "critical"@ {
            let j = choose|j: int| 0 <= j < dc.len() && dc[j] == disk_alert(k as nat, disks[k].0);
            assert(c[j] == dc[j]);
        }
        if exists|i: int| 0 <= i < c.len() && (#[trigger] c[i]).kind is DiskCritical && c[i].index == k {
            let i = choose|i: int| 0 <= i < c.len() && (#[trigger] c[i]).kind is DiskCritical && c[i].index == k;
            if i >= n {
                assert(c[i] == rc[i - n]);
            } else {
                assert(c[i] == dc[i]);
            }
        }
    }
    assert forall|k: int| 0 <= k < repos.len() implies ((#[trigger] repos[k]).changed_files > 20 <==> exists|i: int|
        0 <= i < c.len() && (#[trigger] c[i]).kind is RepoChanged && c[i].index == k) by {
        if repos[k].changed_files > 20 {
            let j = choose|j: int| 0 <= j < rc.len() && rc[j] == changed_alert(k as nat, repos[k]);
            assert(c[n + j] == rc[j]);
        }
        if exists|i: int| 0 <= i < c.len() && (#[trigger] c[i]).kind is RepoChanged && c[i].index == k {
            let i = choose|i: int| 0 <= i < c.len() && (#[trigger] c[i]).kind is RepoChanged && c[i].index == k;
            if i >= n {
                assert(c[i] == rc[i - n]);
            } else {
                assert(c[i] == dc[i]);
            }
        }
    }
    assert forall|k: int| 0 <= k < repos.len() implies ((#[trigger] repos[k]).unpushed_commits > 5 <==> exists|i: int|
        0 <= i < c.len() && (#[trigger] c[i]).kind is RepoUnpushed && c[i].index == k) by {
        if repos[k].unpushed_commits > 5 {
            let j = choose|j: int| 0 <= j < rc.len() && rc[j] == unpushed_alert(k as nat, repos[k]);
            assert(c[n + j] == rc[j]);
        }
        if exists|i: int| 0 <= i < c.len() && (#[trigger] c[i]).kind is RepoUnpushed && c[i].index == k {
            let i = choose|i: int| 0 <= i < c.len() && (#[trigger] c[i]).kind is RepoUnpushed && c[i].index == k;
            if i >= n {
                assert(c[i] == rc[i - n]);
            } else {
                assert(c[i] == dc[i]);
            }
        }
    }
    assert forall|i: int| 0 <= i < c.len() implies {
        let a = #[trigger] c[i];
        &&& a.kind is RepoChanged ==> a.body == Some("Repo '"@ + repos[a.index as int].name + "' has "@
            + decimal(repos[a.index as int].changed_files) + " changed files"@)
        &&& a.kind is RepoUnpushed ==> a.body == Some("Repo '"@ + repos[a.index as int].name + "' has "@
            + decimal(repos[a.index as int].unpushed_commits) + " unpushed commits"@)
    } by {
        if i >= n {
            assert(c[i] == rc[i - n]);
        } else {
            assert(c[i] == dc[i]);
        }
    }
}

/// Law: an alert is shown once. The alerts shown in a pass have distinct keys,
/// none of them notified before; and a second pass over the same figures,
/// after the first recorded its keys, shows nothing.
pub proof fn law_alert_shown_once(disks: Seq<(Seq<char>, Seq<char>)>, repos: Seq<RepoStatusView>, notified: Set<Seq<char>>)
    ensures
        ({
            let cands = alert_candidates(disks, repos);
            let shown = alerts_to_show(cands, notified).0;
            &&& forall|i: int| 0 <= i < shown.len() ==> !notified.contains(#[trigger] shown[i].key)
            &&& forall|i: int, j: int| 0 <= i < j < shown.len() ==> shown[i].key != shown[j].key
            &&& alerts_to_show(cands, dedup(alert_keys(cands)).to_set()).0.len() == 0
        }),
{
    let cands = alert_candidates(disks, repos);
    lemma_shown_shape(cands, notified);
    let keys = alert_keys(cands);
    crate::state::law_dedup_exact(keys);
    assert forall|i: int| 0 <= i < cands.len() implies dedup(keys).to_set().contains(#[trigger] cands[i].key) by {
        assert(keys[i] == cands[i].key);
        assert(keys.contains(cands[i].key));
        assert(dedup(keys).contains(cands[i].key));
    }
    lemma_show_known(cands, dedup(keys).to_set());
}

/// Law: after a pass, the notified keys are exactly the keys of the alerts
/// whose thresholds are crossed now, each once: keys of alerts that are no
/// longer crossed are dropped.
pub proof fn law_notified_are_current(disks: Seq<(Seq<char>, Seq<char>)>, repos: Seq<RepoStatusView>)
    ensures
        ({
            let keys = alert_keys(alert_candidates(disks, repos));
            &&& dedup(keys).no_duplicates()
            &&& forall|k: Seq<char>| dedup(keys).contains(k) <==> keys.contains(k)
        }),
{
    crate::state::law_dedup_exact(alert_keys(alert_candidates(disks, repos)));
}

} // verus!
