//! Git repository status from the outputs of `git` runs.
use vstd::prelude::*;
use crate::text::{lines, split_lines, string_of, to_chars, trim, trim_chars, from_chars};

verus! {

/// The state of one git repository.
pub struct RepoStatus {
    pub name: String,
    pub path: String,
    /// Some file is changed.
    pub dirty: bool,
    pub changed_files: usize,
    /// Commits on HEAD that its upstream lacks.
    pub unpushed_commits: usize,
    pub branch: String,
}

pub struct RepoStatusView {
    pub name: Seq<char>,
    pub path: Seq<char>,
    pub dirty: bool,
    pub changed_files: nat,
    pub unpushed_commits: nat,
    pub branch: Seq<char>,
}

impl View for RepoStatus {
    type V = RepoStatusView;

    open spec fn view(&self) -> RepoStatusView {
        RepoStatusView {
            name: self.name@,
            path: self.path@,
            dirty: self.dirty,
            changed_files: self.changed_files as nat,
            unpushed_commits: self.unpushed_commits as nat,
            branch: self.branch@,
        }
    }
}

/// What a finished command run gave: whether it exited successfully, and its
/// standard output as text.
pub struct CommandOutput {
    pub success: bool,
    pub stdout: String,
}

/// What was learned about one repository directory: its name (the last
/// component of its path, if it has one), its path, and the outputs of
/// `git status --porcelain`, `git rev-parse --abbrev-ref HEAD` and
/// `git log @{u}..HEAD --oneline` (`None` when a run failed to start or timed out).
pub struct RepoProbe {
    pub name: Option<String>,
    pub path: String,
    pub status: Option<CommandOutput>,
    pub branch: Option<CommandOutput>,
    pub unpushed: Option<CommandOutput>,
}

/// The number of lines of `out` that are not blank.
pub open spec fn nonblank_count_of(ls: Seq<Seq<char>>) -> nat
    decreases ls.len(),
{
    if ls.len() == 0 {
        0
    } else {
        nonblank_count_of(ls.drop_last()) + (if trim(ls.last()).len() > 0 { 1nat } else { 0nat })
    }
}

pub open spec fn nonblank_lines(out: Seq<char>) -> nat {
    nonblank_count_of(lines(out))
}

proof fn lemma_nonblank_le(ls: Seq<Seq<char>>)
    ensures
        nonblank_count_of(ls) <= ls.len(),
    decreases ls.len(),
{
    if ls.len() > 0 {
        lemma_nonblank_le(ls.drop_last());
    }
}

/// The number of nonblank lines of a command output.
pub fn count_nonblank_lines(out: &str) -> (n: usize)
    ensures
        n == nonblank_lines(out@),
{
    let chars = to_chars(out);
    let ls = split_lines(&chars);
    let ghost lv = ls.deep_view();
    let mut n: usize = 0;
    let mut i: usize = 0;
    while i < ls.len()
        invariant
            i <= ls.len(),
            lv == ls.deep_view(),
            n == nonblank_count_of(lv.take(i as int)),
        decreases ls.len() - i,
    {
        assert(lv.take(i + 1).drop_last() =~= lv.take(i as int));
        assert(ls[i as int]@ =~= lv[i as int]);
        proof { lemma_nonblank_le(lv.take(i as int)); }
        let t = trim_chars(&ls[i]);
        if t.len() > 0 {
            n = n + 1;
        }
        i = i + 1;
    }
    assert(lv.take(ls.len() as int) =~= lv);
    n
}

pub struct CommandOutputView {
    pub success: bool,
    pub stdout: Seq<char>,
}

impl View for CommandOutput {
    type V = CommandOutputView;

    open spec fn view(&self) -> CommandOutputView {
        CommandOutputView { success: self.success, stdout: self.stdout@ }
    }
}

pub open spec fn out_view(o: Option<CommandOutput>) -> Option<CommandOutputView> {
    match o {
        Some(c) => Some(c@),
        None => None,
    }
}

/// The branch name: the trimmed output of a successful run, `unknown` when
/// the run failed or printed nothing.
pub open spec fn spec_branch(o: Option<CommandOutputView>) -> Seq<char> {
    match o {
        Some(c) => if c.success && trim(c.stdout).len() > 0 {
            trim(c.stdout)
        } else {
            "unknown"@
        },
        None => "unknown"@,
    }
}

/// The status of a repository from the outputs of its git runs; `None` when
/// its path has no last component. Changed files are the nonblank status
/// lines (whatever the exit status), unpushed commits the nonblank lines of a
/// successful log run.
pub open spec fn spec_inspect(
    name: Option<Seq<char>>,
    path: Seq<char>,
    status: Option<CommandOutputView>,
    branch: Option<CommandOutputView>,
    unpushed: Option<CommandOutputView>,
) -> Option<RepoStatusView> {
    match name {
        None => None,
        Some(n) => {
            let changed = match status {
                Some(c) => nonblank_lines(c.stdout),
                None => 0,
            };
            let ahead = match unpushed {
                Some(c) => if c.success { nonblank_lines(c.stdout) } else { 0 },
                None => 0,
            };
            Some(RepoStatusView {
                name: n,
                path: path,
                dirty: changed > 0,
                changed_files: changed,
                unpushed_commits: ahead,
                branch: spec_branch(branch),
            })
        },
    }
}

pub open spec fn probe_inspect(p: RepoProbe) -> Option<RepoStatusView> {
    spec_inspect(
        match p.name {
            Some(n) => Some(n@),
            None => None,
        },
        p.path@,
        out_view(p.status),
        out_view(p.branch),
        out_view(p.unpushed),
    )
}

/// The status of one probed repository.
pub fn inspect_repo(probe: &RepoProbe) -> (r: Option<RepoStatus>)
    ensures
        match probe_inspect(*probe) {
            Some(v) => r matches Some(s) && s@ == v,
            None => r is None,
        },
{
    let name = match &probe.name {
        Some(n) => n.clone(),
        None => {
            return None;
        },
    };
    let changed_files = match &probe.status {
        Some(o) => count_nonblank_lines(o.stdout.as_str()),
        None => 0,
    };
    let branch = match &probe.branch {
        Some(o) => {
            let t = trim_chars(&to_chars(o.stdout.as_str()));
            if o.success && t.len() > 0 {
                from_chars(t.as_slice())
            } else {
                string_of("unknown")
            }
        },
        None => string_of("unknown"),
    };
    let unpushed_commits = match &probe.unpushed {
        Some(o) => if o.success {
            count_nonblank_lines(o.stdout.as_str())
        } else {
            0
        },
        None => 0,
    };
    Some(RepoStatus {
        name,
        path: probe.path.clone(),
        dirty: changed_files > 0,
        changed_files,
        unpushed_commits,
        branch,
    })
}

/// The status of every probed repository that has a name, in order.
pub fn scan_git_repos(probes: &Vec<RepoProbe>) -> (r: Vec<RepoStatus>)
    ensures
        r@.map_values(|s: RepoStatus| s@) == scanned(probes@),
{
    let mut out: Vec<RepoStatus> = Vec::new();
    let mut i: usize = 0;
    while i < probes.len()
        invariant
            i <= probes.len(),
            out@.map_values(|s: RepoStatus| s@) == scanned(probes@.take(i as int)),
        decreases probes.len() - i,
    {
        assert(probes@.take(i + 1).drop_last() =~= probes@.take(i as int));
        let ghost before = out@.map_values(|s: RepoStatus| s@);
        match inspect_repo(&probes[i]) {
            Some(s) => {
                out.push(s);
                assert(out@.map_values(|s: RepoStatus| s@) =~= before.push(
                    probe_inspect(probes@[i as int]).unwrap()));
            },
            None => {},
        }
        i = i + 1;
    }
    assert(probes@.take(probes.len() as int) =~= probes@);
    out
}

/// The statuses of the probed repositories that have a name, in order.
pub open spec fn scanned(ps: Seq<RepoProbe>) -> Seq<RepoStatusView>
    decreases ps.len(),
{
    if ps.len() == 0 {
        Seq::empty()
    } else {
        match probe_inspect(ps.last()) {
            Some(v) => scanned(ps.drop_last()).push(v),
            None => scanned(ps.drop_last()),
        }
    }
}

/// Law: a scanned repository is dirty exactly when it has changed files, and
/// every repository reported comes from a probe that has a name.
pub proof fn law_dirty_iff_changed(ps: Seq<RepoProbe>)
    ensures
        forall|i: int| 0 <= i < scanned(ps).len() ==>
            (#[trigger] scanned(ps)[i]).dirty == (scanned(ps)[i].changed_files > 0),
        scanned(ps).len() <= ps.len(),
    decreases ps.len(),
{
    if ps.len() > 0 {
        law_dirty_iff_changed(ps.drop_last());
        let before = scanned(ps.drop_last());
        if let Some(v) = probe_inspect(ps.last()) {
            assert forall|i: int| 0 <= i < scanned(ps).len() implies
                (#[trigger] scanned(ps)[i]).dirty == (scanned(ps)[i].changed_files > 0) by {
                if i < before.len() {
                    assert(scanned(ps)[i] == before[i]);
                }
            }
        }
    }
}

} // verus!
