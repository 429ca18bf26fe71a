//! Search across repositories: repository names, branches, recent commit
//! subjects and tracked files.
use vstd::prelude::*;
use crate::git::{CommandOutput, CommandOutputView, out_view};
use crate::text::{
    join_path, join_path_str, byte_len, contains_chars, contains_seq, from_chars,
    lines, push_str, split_lines, string_of, to_chars, trim, trim_chars, utf8_len_of,
    lemma_byte_len_step,
};

verus! {

/// The lowercase form of a string (`str::to_lowercase`), by Unicode's case mappings.
pub uninterp spec fn lowercase(s: Seq<char>) -> Seq<char>;

/// A character lowercased the ASCII way: capital letters `A` to `Z` become
/// `a` to `z`, everything else stays.
pub open spec fn ascii_lower(c: char) -> char {
    if 'A' <= c && c <= 'Z' {
        ((c as int) + 32) as char
    } else {
        c
    }
}

/// `str::to_lowercase`. Trusted: the result is named after the Unicode lowercase
/// mapping that std applies; of it, only the ASCII part is stated (on ASCII
/// text, capital letters become small and nothing else changes).
#[verifier::external_body]
pub(crate) fn to_lowercase(s: &str) -> (r: String)
    ensures
        r@ == lowercase(s@),
        (forall|i: int| 0 <= i < s@.len() ==> (s@[i] as u32) < 128) ==> r@ == s@.map_values(
            |c: char| ascii_lower(c),
        ),
{
    s.to_lowercase()
}

/// One search result.
pub struct SearchHit {
    /// "repo", "branch", "commit" or "file"
    pub kind: String,
    /// Repository name, branch, commit subject or file path
    pub label: String,
    /// Short name of the owning repo
    pub repo: String,
    /// Path of the repo root
    pub repo_path: String,
    /// Path to open: the repo root, or the file for file hits
    pub open_path: String,
}

pub struct SearchHitView {
    pub kind: Seq<char>,
    pub label: Seq<char>,
    pub repo: Seq<char>,
    pub repo_path: Seq<char>,
    pub open_path: Seq<char>,
}

impl View for SearchHit {
    type V = SearchHitView;

    open spec fn view(&self) -> SearchHitView {
        SearchHitView {
            kind: self.kind@,
            label: self.label@,
            repo: self.repo@,
            repo_path: self.repo_path@,
            open_path: self.open_path@,
        }
    }
}

/// What was gathered for one repository: its name and path, the output of
/// `git rev-parse --abbrev-ref HEAD`, and the standard outputs of
/// `git log --oneline -20 --no-decorate` and `git ls-files` (`None` when a run
/// failed to start or timed out); and whether the host is Windows (paths
/// inside the repository are joined with `\` there, with `/` elsewhere).
pub struct RepoSearchInput {
    pub name: String,
    pub path: String,
    pub windows: bool,
    pub branch: Option<CommandOutput>,
    pub log: Option<String>,
    pub files: Option<String>,
}

pub open spec fn hit(kind: Seq<char>, label: Seq<char>, name: Seq<char>, path: Seq<char>, open: Seq<char>) -> SearchHitView {
    SearchHitView { kind, label, repo: name, repo_path: path, open_path: open }
}

/// Whether `s` matches the lowercase query `q`, ignoring case.
pub open spec fn matches_query(s: Seq<char>, q: Seq<char>) -> bool {
    contains_seq(lowercase(s), q)
}

// ---------------------------------------------------------------------------
// Path file names
// ---------------------------------------------------------------------------

/// Reading a `/`-separated path from the left: the last proper component
/// completed so far (not empty, not `.`), and the current component.
pub open spec fn component_state(s: Seq<char>) -> (Option<Seq<char>>, Seq<char>)
    decreases s.len(),
{
    if s.len() == 0 {
        (None, Seq::empty())
    } else {
        let st = component_state(s.drop_last());
        if s.last() == '/' {
            if st.1.len() > 0 && st.1 != seq!['.'] { (Some(st.1), Seq::empty()) } else { (st.0, Seq::empty()) }
        } else {
            (st.0, st.1.push(s.last()))
        }
    }
}

/// The file name of a relative path (`Path::file_name` with `/` separators):
/// its last component other than empty ones and `.`, unless that is `..`.
pub open spec fn file_name(s: Seq<char>) -> Option<Seq<char>> {
    let st = component_state(s);
    let last = if st.1.len() > 0 && st.1 != seq!['.'] { Some(st.1) } else { st.0 };
    match last {
        Some(c) => if c == seq!['.', '.'] { None } else { Some(c) },
        None => None,
    }
}

fn is_dot(v: &Vec<char>) -> (r: bool)
    ensures
        r == (v@ == seq!['.']),
{
    if v.len() == 1 && v[0] == '.' {
        assert(v@ =~= seq!['.']);
        true
    } else {
        false
    }
}

/// The file name of a `/`-separated relative path.
pub fn path_file_name(v: &Vec<char>) -> (r: Option<Vec<char>>)
    ensures
        match file_name(v@) {
            Some(n) => r matches Some(x) && x@ == n,
            None => r is None,
        },
{
    let mut last: Option<Vec<char>> = None;
    let mut cur: Vec<char> = Vec::new();
    let mut i: usize = 0;
    while i < v.len()
        invariant
            i <= v.len(),
            component_state(v@.take(i as int)).0 == (match last {
                Some(x) => Some(x@),
                None => None,
            }),
            component_state(v@.take(i as int)).1 == cur@,
        decreases v.len() - i,
    {
        assert(v@.take(i + 1).drop_last() =~= v@.take(i as int));
        if v[i] == '/' {
            if cur.len() > 0 && !is_dot(&cur) {
                last = Some(cur);
            }
            cur = Vec::new();
            assert(cur@ =~= Seq::<char>::empty());
        } else {
            cur.push(v[i]);
        }
        i = i + 1;
    }
    assert(v@.take(v.len() as int) =~= v@);
    let chosen = if cur.len() > 0 && !is_dot(&cur) { Some(cur) } else { last };
    match chosen {
        Some(c) => {
            if c.len() == 2 && c[0] == '.' && c[1] == '.' {
                assert(c@ =~= seq!['.', '.']);
                None
            } else {
                assert(c@ != seq!['.', '.']) by {
                    if c@ == seq!['.', '.'] {
                        assert(c@[0] == '.' && c@[1] == '.');
                    }
                }
                Some(c)
            }
        },
        None => None,
    }
}

// ---------------------------------------------------------------------------
// Hits
// ---------------------------------------------------------------------------

pub struct RepoSearchView {
    pub name: Seq<char>,
    pub path: Seq<char>,
    pub windows: bool,
    pub branch: Option<CommandOutputView>,
    pub log: Option<Seq<char>>,
    pub files: Option<Seq<char>>,
}

impl View for RepoSearchInput {
    type V = RepoSearchView;

    open spec fn view(&self) -> RepoSearchView {
        RepoSearchView {
            name: self.name@,
            path: self.path@,
            windows: self.windows,
            branch: out_view(self.branch),
            log: match self.log {
                Some(s) => Some(s@),
                None => None,
            },
            files: match self.files {
                Some(s) => Some(s@),
                None => None,
            },
        }
    }
}

/// The current branch: the trimmed output of a successful run, when not empty.
pub open spec fn branch_of(o: Option<CommandOutputView>) -> Option<Seq<char>> {
    match o {
        Some(c) => if c.success && trim(c.stdout).len() > 0 { Some(trim(c.stdout)) } else { None },
        None => None,
    }
}

/// What follows the first `c` in `s`.
pub open spec fn after_char(s: Seq<char>, c: char) -> Option<Seq<char>>
    decreases s.len(),
{
    if s.len() == 0 {
        None
    } else if s[0] == c {
        Some(s.skip(1))
    } else {
        after_char(s.skip(1), c)
    }
}

/// The subject of a `git log --oneline` line: what follows the hash and its
/// space, trimmed (empty when there is no space).
pub open spec fn commit_subject(line: Seq<char>) -> Seq<char> {
    match after_char(line, ' ') {
        Some(rest) => trim(rest),
        None => Seq::empty(),
    }
}

/// A hit per log line whose subject matches.
pub open spec fn commit_hits(ls: Seq<Seq<char>>, q: Seq<char>, name: Seq<char>, path: Seq<char>) -> Seq<SearchHitView>
    decreases ls.len(),
{
    if ls.len() == 0 {
        Seq::empty()
    } else {
        let before = commit_hits(ls.drop_last(), q, name, path);
        let subject = commit_subject(ls.last());
        if matches_query(subject, q) {
            before.push(hit("commit"@, subject, name, path, path))
        } else {
            before
        }
    }
}

/// File hits, up to 2000 per repository: nonblank tracked paths (trimmed)
/// whose file name or path matches, opened at the file's path inside the
/// repository.
pub open spec fn file_hits(ls: Seq<Seq<char>>, q: Seq<char>, name: Seq<char>, path: Seq<char>, windows: bool) -> Seq<SearchHitView>
    decreases ls.len(),
{
    if ls.len() == 0 {
        Seq::empty()
    } else {
        let before = file_hits(ls.drop_last(), q, name, path, windows);
        let rel = trim(ls.last());
        let fname = match file_name(rel) {
            Some(f) => f,
            None => rel,
        };
        if before.len() >= 2000 || rel.len() == 0 {
            before
        } else if matches_query(fname, q) || matches_query(rel, q) {
            before.push(hit("file"@, rel, name, path, join_path(path, rel, windows)))
        } else {
            before
        }
    }
}

/// The hits of one repository: its name, its branch (labelled with the
/// repository), recent commit subjects, then tracked files.
pub open spec fn repo_hits(r: RepoSearchView, q: Seq<char>) -> Seq<SearchHitView> {
    let name_hits = if matches_query(r.name, q) {
        seq![hit("repo"@, r.name, r.name, r.path, r.path)]
    } else {
        Seq::empty()
    };
    let branch_hits = match branch_of(r.branch) {
        Some(b) => if matches_query(b, q) {
            seq![hit("branch"@, b + " ("@ + r.name + ")"@, r.name, r.path, r.path)]
        } else {
            Seq::empty()
        },
        None => Seq::empty(),
    };
    let log_hits = match r.log {
        Some(out) => commit_hits(lines(out), q, r.name, r.path),
        None => Seq::empty(),
    };
    let files = match r.files {
        Some(out) => file_hits(lines(out), q, r.name, r.path, r.windows),
        None => Seq::empty(),
    };
    name_hits + branch_hits + log_hits + files
}

pub open spec fn all_hits(rs: Seq<RepoSearchView>, q: Seq<char>) -> Seq<SearchHitView>
    decreases rs.len(),
{
    if rs.len() == 0 {
        Seq::empty()
    } else {
        all_hits(rs.drop_last(), q) + repo_hits(rs.last(), q)
    }
}

/// The results of a search: nothing for a query shorter than 2 bytes; else
/// the hits of every repository, in order, at most 80 of them. Matching
/// ignores case.
pub open spec fn spec_search(rs: Seq<RepoSearchView>, query: Seq<char>) -> Seq<SearchHitView> {
    if byte_len(query) < 2 {
        Seq::empty()
    } else {
        capped(all_hits(rs, lowercase(query)))
    }
}

/// The first 80 hits.
pub open spec fn capped(h: Seq<SearchHitView>) -> Seq<SearchHitView> {
    if h.len() > 80 { h.take(80) } else { h }
}

fn matches_exec(s: &str, q: &Vec<char>) -> (r: bool)
    ensures
        r == matches_query(s@, q@),
{
    let l = to_lowercase(s);
    let lc = to_chars(l.as_str());
    contains_chars(lc.as_slice(), q.as_slice())
}

fn make_hit(kind: &str, label: String, name: &String, path: &String, open: String) -> (h: SearchHit)
    ensures
        h@ == hit(kind@, label@, name@, path@, open@),
{
    SearchHit { kind: string_of(kind), label, repo: name.clone(), repo_path: path.clone(), open_path: open }
}

fn push_hit(out: &mut Vec<SearchHit>, h: SearchHit)
    ensures
        final(out)@.map_values(|x: SearchHit| x@) == old(out)@.map_values(|x: SearchHit| x@).push(h@),
{
    out.push(h);
    assert(out@.map_values(|x: SearchHit| x@) =~= old(out)@.map_values(|x: SearchHit| x@).push(h@));
}

fn subject_of(line: &Vec<char>) -> (r: Vec<char>)
    ensures
        r@ == commit_subject(line@),
{
    let mut k: usize = 0;
    assert(line@.skip(0) =~= line@);
    while k < line.len() && line[k] != ' '
        invariant
            k <= line.len(),
            forall|j: int| 0 <= j < k ==> line@[j] != ' ',
            after_char(line@, ' ') == after_char(line@.skip(k as int), ' '),
        decreases line.len() - k,
    {
        assert(line@.skip(k as int).skip(1) =~= line@.skip(k + 1));
        k = k + 1;
    }
    if k == line.len() {
        assert(line@.skip(k as int).len() == 0);
        return Vec::new();
    }
    assert(line@.skip(k as int).skip(1) =~= line@.skip(k + 1));
    let rest = crate::text::slice_vec(line, k + 1, line.len());
    assert(rest@ =~= line@.skip(k + 1));
    trim_chars(&rest)
}

fn log_hits(out: &str, q: &Vec<char>, name: &String, path: &String, hits: &mut Vec<SearchHit>)
    ensures
        final(hits)@.map_values(|x: SearchHit| x@) == old(hits)@.map_values(|x: SearchHit| x@)
            + commit_hits(lines(out@), q@, name@, path@),
{
    let chars = to_chars(out);
    let ls = split_lines(&chars);
    let ghost lv = ls.deep_view();
    let ghost h0 = hits@.map_values(|x: SearchHit| x@);
    let mut i: usize = 0;
    assert(h0 + commit_hits(lv.take(0), q@, name@, path@) =~= h0);
    while i < ls.len()
        invariant
            i <= ls.len(),
            lv == ls.deep_view(),
            lv == lines(out@),
            h0 == old(hits)@.map_values(|x: SearchHit| x@),
            hits@.map_values(|x: SearchHit| x@) == h0 + commit_hits(lv.take(i as int), q@, name@, path@),
        decreases ls.len() - i,
    {
        assert(lv.take(i + 1).drop_last() =~= lv.take(i as int));
        assert(ls[i as int]@ =~= lv[i as int]);
        let subject = subject_of(&ls[i]);
        let subject_s = from_chars(subject.as_slice());
        if matches_exec(subject_s.as_str(), q) {
            let ghost before = hits@.map_values(|x: SearchHit| x@);
            let h = make_hit("commit", subject_s, name, path, path.clone());
            push_hit(hits, h);
            assert(h0 + commit_hits(lv.take(i + 1), q@, name@, path@) =~= before.push(h@));
        }
        i = i + 1;
    }
    assert(lv.take(ls.len() as int) =~= lv);
}

fn files_hits(out: &str, q: &Vec<char>, name: &String, path: &String, windows: bool, hits: &mut Vec<SearchHit>)
    ensures
        final(hits)@.map_values(|x: SearchHit| x@) == old(hits)@.map_values(|x: SearchHit| x@)
            + file_hits(lines(out@), q@, name@, path@, windows),
{
    let chars = to_chars(out);
    let ls = split_lines(&chars);
    let ghost lv = ls.deep_view();
    let ghost h0 = hits@.map_values(|x: SearchHit| x@);
    let mut count: usize = 0;
    let mut i: usize = 0;
    assert(h0 + file_hits(lv.take(0), q@, name@, path@, windows) =~= h0);
    while i < ls.len()
        invariant
            i <= ls.len(),
            lv == ls.deep_view(),
            lv == lines(out@),
            h0 == old(hits)@.map_values(|x: SearchHit| x@),
            hits@.map_values(|x: SearchHit| x@) == h0 + file_hits(lv.take(i as int), q@, name@, path@, windows),
            count == file_hits(lv.take(i as int), q@, name@, path@, windows).len(),
            count <= 2000,
        decreases ls.len() - i,
    {
        assert(lv.take(i + 1).drop_last() =~= lv.take(i as int));
        assert(ls[i as int]@ =~= lv[i as int]);
        let rel = trim_chars(&ls[i]);
        if count < 2000 && rel.len() > 0 {
            let fname = match path_file_name(&rel) {
                Some(f) => f,
                None => crate::text::slice_vec(&rel, 0, rel.len()),
            };
            assert(rel@.subrange(0, rel@.len() as int) =~= rel@);
            let rel_s = from_chars(rel.as_slice());
            let fname_s = from_chars(fname.as_slice());
            if matches_exec(fname_s.as_str(), q) || matches_exec(rel_s.as_str(), q) {
                let ghost before = hits@.map_values(|x: SearchHit| x@);
                let open = join_path_str(path.as_str(), rel.as_slice(), windows);
                let h = make_hit("file", rel_s, name, path, open);
                push_hit(hits, h);
                assert(h0 + file_hits(lv.take(i + 1), q@, name@, path@, windows) =~= before.push(h@));
                count = count + 1;
            }
        }
        i = i + 1;
    }
    assert(lv.take(ls.len() as int) =~= lv);
}

fn repo_hits_exec(r: &RepoSearchInput, q: &Vec<char>, hits: &mut Vec<SearchHit>)
    ensures
        final(hits)@.map_values(|x: SearchHit| x@) == old(hits)@.map_values(|x: SearchHit| x@) + repo_hits(r@, q@),
{
    let ghost h0 = hits@.map_values(|x: SearchHit| x@);
    if matches_exec(r.name.as_str(), q) {
        push_hit(hits, make_hit("repo", r.name.clone(), &r.name, &r.path, r.path.clone()));
    }
    let ghost h1 = hits@.map_values(|x: SearchHit| x@);
    match &r.branch {
        Some(o) => {
            let t = trim_chars(&to_chars(o.stdout.as_str()));
            if o.success && t.len() > 0 {
                let b = from_chars(t.as_slice());
                if matches_exec(b.as_str(), q) {
                    let mut label = b;
                    push_str(&mut label, " (");
                    push_str(&mut label, r.name.as_str());
                    push_str(&mut label, ")");
                    push_hit(hits, make_hit("branch", label, &r.name, &r.path, r.path.clone()));
                }
            }
        },
        None => {},
    }
    let ghost h2 = hits@.map_values(|x: SearchHit| x@);
    match &r.log {
        Some(out) => log_hits(out.as_str(), q, &r.name, &r.path, hits),
        None => {},
    }
    let ghost h3 = hits@.map_values(|x: SearchHit| x@);
    match &r.files {
        Some(out) => files_hits(out.as_str(), q, &r.name, &r.path, r.windows, hits),
        None => {},
    }
    let ghost rv = r@;
    assert(h3 == h2 + (match rv.log {
        Some(out) => commit_hits(lines(out), q@, rv.name, rv.path),
        None => Seq::empty(),
    })) by {
        if r.log is None {
            assert(h3 =~= h2 + Seq::<SearchHitView>::empty());
        }
    }
    assert(hits@.map_values(|x: SearchHit| x@) =~= h3 + (match rv.files {
        Some(out) => file_hits(lines(out), q@, rv.name, rv.path, rv.windows),
        None => Seq::empty(),
    }));
    assert(hits@.map_values(|x: SearchHit| x@) =~= h0 + repo_hits(rv, q@));
}

/// Whether a query is long enough to search for: at least two bytes.
pub fn query_searchable(query: &str) -> (r: bool)
    ensures
        r == (byte_len(query@) >= 2),
{
    let qc = to_chars(query);
    let mut bytes: usize = 0;
    let mut j: usize = 0;
    while j < qc.len() && bytes < 2
        invariant
            j <= qc.len(),
            qc@ == query@,
            bytes == byte_len(qc@.take(j as int)),
            bytes < 2 + 4,
        decreases qc.len() - j,
    {
        proof { lemma_byte_len_step(qc@, j as int); }
        bytes = bytes + utf8_len_of(qc[j]);
        j = j + 1;
    }
    proof {
        if j < qc.len() {
            crate::text::lemma_byte_len_strict(qc@, j as int, qc@.len() as int);
        }
        assert(qc@.take(qc@.len() as int) =~= qc@);
    }
    bytes >= 2
}

/// The results of searching the repositories for `query`.
pub fn search_repos(repos: &Vec<RepoSearchInput>, query: &str) -> (r: Vec<SearchHit>)
    ensures
        r@.map_values(|h: SearchHit| h@) == spec_search(repos@.map_values(|x: RepoSearchInput| x@), query@),
{
    let ghost rv = repos@.map_values(|x: RepoSearchInput| x@);
    if !query_searchable(query) {
        let r: Vec<SearchHit> = Vec::new();
        assert(r@.map_values(|h: SearchHit| h@) =~= Seq::<SearchHitView>::empty());
        return r;
    }
    let ql = to_lowercase(query);
    search_lowered(repos, ql.as_str())
}

/// The hits of every repository for an already lowercased query, in order,
/// at most 80 of them.
pub fn search_lowered(repos: &Vec<RepoSearchInput>, q_lower: &str) -> (r: Vec<SearchHit>)
    ensures
        r@.map_values(|h: SearchHit| h@) == capped(all_hits(repos@.map_values(|x: RepoSearchInput| x@), q_lower@)),
{
    let ghost rv = repos@.map_values(|x: RepoSearchInput| x@);
    let q = to_chars(q_lower);
    let mut hits: Vec<SearchHit> = Vec::new();
    let mut i: usize = 0;
    assert(hits@.map_values(|h: SearchHit| h@) =~= all_hits(rv.take(0), q@));
    while i < repos.len()
        invariant
            i <= repos.len(),
            rv == repos@.map_values(|x: RepoSearchInput| x@),
            q@ == q_lower@,
            hits@.map_values(|h: SearchHit| h@) == all_hits(rv.take(i as int), q@),
        decreases repos.len() - i,
    {
        assert(rv.take(i + 1).drop_last() =~= rv.take(i as int));
        repo_hits_exec(&repos[i], &q, &mut hits);
        i = i + 1;
    }
    assert(rv.take(repos.len() as int) =~= rv);
    if hits.len() > 80 {
        hits.truncate(80);
        assert(hits@.map_values(|h: SearchHit| h@) =~= all_hits(rv, q@).take(80));
    }
    hits
}

/// Law: a repository gives at most 2000 file hits.
pub proof fn law_file_hits_capped(ls: Seq<Seq<char>>, q: Seq<char>, name: Seq<char>, path: Seq<char>, windows: bool)
    ensures
        file_hits(ls, q, name, path, windows).len() <= 2000,
    decreases ls.len(),
{
    if ls.len() > 0 {
        law_file_hits_capped(ls.drop_last(), q, name, path, windows);
    }
}

/// Whether a hit belongs to the repository `r` and is of one of the four kinds.
pub open spec fn hit_of(h: SearchHitView, r: RepoSearchView) -> bool {
    &&& h.repo == r.name
    &&& h.repo_path == r.path
    &&& (h.kind == "repo"@ || h.kind == "branch"@ || h.kind == "commit"@ || h.kind == "file"@)
}

proof fn lemma_commit_hits_of(ls: Seq<Seq<char>>, q: Seq<char>, r: RepoSearchView)
    ensures
        forall|i: int| 0 <= i < commit_hits(ls, q, r.name, r.path).len() ==>
            hit_of(#[trigger] commit_hits(ls, q, r.name, r.path)[i], r)
                && commit_hits(ls, q, r.name, r.path)[i].kind == "commit"@,
    decreases ls.len(),
{
    if ls.len() > 0 {
        lemma_commit_hits_of(ls.drop_last(), q, r);
        let before = commit_hits(ls.drop_last(), q, r.name, r.path);
        let now = commit_hits(ls, q, r.name, r.path);
        assert forall|i: int| 0 <= i < now.len() implies hit_of(#[trigger] now[i], r)
            && now[i].kind == "commit"@ by {
            if i < before.len() {
                assert(now[i] == before[i]);
            }
        }
    }
}

proof fn lemma_file_hits_of(ls: Seq<Seq<char>>, q: Seq<char>, r: RepoSearchView)
    ensures
        forall|i: int| 0 <= i < file_hits(ls, q, r.name, r.path, r.windows).len() ==>
            hit_of(#[trigger] file_hits(ls, q, r.name, r.path, r.windows)[i], r)
                && file_hits(ls, q, r.name, r.path, r.windows)[i].kind == "file"@,
    decreases ls.len(),
{
    if ls.len() > 0 {
        lemma_file_hits_of(ls.drop_last(), q, r);
        let before = file_hits(ls.drop_last(), q, r.name, r.path, r.windows);
        let now = file_hits(ls, q, r.name, r.path, r.windows);
        assert forall|i: int| 0 <= i < now.len() implies hit_of(#[trigger] now[i], r)
            && now[i].kind == "file"@ by {
            if i < before.len() {
                assert(now[i] == before[i]);
            }
        }
    }
}

proof fn lemma_repo_hits_of(r: RepoSearchView, q: Seq<char>)
    ensures
        forall|i: int| 0 <= i < repo_hits(r, q).len() ==> hit_of(#[trigger] repo_hits(r, q)[i], r),
{
    if let Some(out) = r.log {
        lemma_commit_hits_of(lines(out), q, r);
    }
    if let Some(out) = r.files {
        lemma_file_hits_of(lines(out), q, r);
    }
}

proof fn lemma_kinds_differ()
    ensures
        "branch"@ != "repo"@,
        "branch"@ != "commit"@,
        "branch"@ != "file"@,
{
    reveal_strlit("branch");
    reveal_strlit("repo");
    reveal_strlit("commit");
    reveal_strlit("file");
    assert("branch"@[0] != "commit"@[0]);
}

/// Law: a repository gives a branch hit exactly when its current branch name
/// itself (without the repository name) matches the query, and that hit is
/// labelled with the branch name followed by the repository name in brackets.
pub proof fn law_branch_hit_matches_branch_name(r: RepoSearchView, q: Seq<char>)
    ensures
        forall|i: int| 0 <= i < repo_hits(r, q).len() && (#[trigger] repo_hits(r, q)[i]).kind == "branch"@ ==> {
            &&& branch_of(r.branch) is Some
            &&& contains_seq(lowercase(branch_of(r.branch).unwrap()), q)
            &&& repo_hits(r, q)[i].label == branch_of(r.branch).unwrap() + " ("@ + r.name + ")"@
            &&& repo_hits(r, q)[i].repo == r.name
            &&& repo_hits(r, q)[i].open_path == r.path
        },
        branch_of(r.branch) is Some && contains_seq(lowercase(branch_of(r.branch).unwrap()), q) ==>
            exists|i: int| 0 <= i < repo_hits(r, q).len()
                && #[trigger] repo_hits(r, q)[i] == hit("branch"@, branch_of(r.branch).unwrap() + " ("@ + r.name + ")"@,
                    r.name, r.path, r.path),
{
    lemma_kinds_differ();
    if let Some(out) = r.log {
        lemma_commit_hits_of(lines(out), q, r);
    }
    if let Some(out) = r.files {
        lemma_file_hits_of(lines(out), q, r);
    }
    let name_hits = if matches_query(r.name, q) {
        seq![hit("repo"@, r.name, r.name, r.path, r.path)]
    } else {
        Seq::<SearchHitView>::empty()
    };
    let h = repo_hits(r, q);
    let n = name_hits.len();
    if branch_of(r.branch) is Some && contains_seq(lowercase(branch_of(r.branch).unwrap()), q) {
        assert(h[n as int] == hit("branch"@, branch_of(r.branch).unwrap() + " ("@ + r.name + ")"@, r.name, r.path, r.path));
    }
}

proof fn lemma_all_hits_of(rs: Seq<RepoSearchView>, q: Seq<char>)
    ensures
        forall|i: int| 0 <= i < all_hits(rs, q).len() ==>
            exists|k: int| 0 <= k < rs.len() && hit_of(#[trigger] all_hits(rs, q)[i], rs[k]),
    decreases rs.len(),
{
    if rs.len() > 0 {
        let before = all_hits(rs.drop_last(), q);
        let last = repo_hits(rs.last(), q);
        lemma_all_hits_of(rs.drop_last(), q);
        lemma_repo_hits_of(rs.last(), q);
        assert forall|i: int| 0 <= i < all_hits(rs, q).len() implies
            exists|k: int| 0 <= k < rs.len() && hit_of(#[trigger] all_hits(rs, q)[i], rs[k]) by {
            if i < before.len() {
                assert(all_hits(rs, q)[i] == before[i]);
                let k = choose|k: int| 0 <= k < rs.drop_last().len() && hit_of(before[i], rs.drop_last()[k]);
                assert(rs[k] == rs.drop_last()[k]);
            } else {
                assert(all_hits(rs, q)[i] == last[i - before.len()]);
                assert(hit_of(all_hits(rs, q)[i], rs[rs.len() - 1]));
            }
        }
    }
}

/// Law: a repository gives a hit of kind "repo" exactly when its name
/// matches the query; that hit is labelled with the name and opens the
/// repository's folder.
pub proof fn law_repo_hit_matches_name(r: RepoSearchView, q: Seq<char>)
    ensures
        forall|i: int| 0 <= i < repo_hits(r, q).len() && (#[trigger] repo_hits(r, q)[i]).kind == "repo"@ ==>
            contains_seq(lowercase(r.name), q) && repo_hits(r, q)[i] == hit("repo"@, r.name, r.name, r.path, r.path),
        contains_seq(lowercase(r.name), q) ==> repo_hits(r, q).len() > 0
            && repo_hits(r, q)[0] == hit("repo"@, r.name, r.name, r.path, r.path),
{
    lemma_kinds_differ();
    reveal_strlit("repo");
    reveal_strlit("commit");
    reveal_strlit("file");
    assert("repo"@ != "commit"@ && "repo"@ != "file"@) by {
        assert("repo"@[0] != "commit"@[0]);
        assert("repo"@[0] != "file"@[0]);
    }
    if let Some(out) = r.log {
        lemma_commit_hits_of(lines(out), q, r);
    }
    if let Some(out) = r.files {
        lemma_file_hits_of(lines(out), q, r);
    }
}

proof fn lemma_commit_hits_match(ls: Seq<Seq<char>>, q: Seq<char>, name: Seq<char>, path: Seq<char>)
    ensures
        forall|i: int| 0 <= i < commit_hits(ls, q, name, path).len() ==> exists|j: int| 0 <= j < ls.len() && {
            let h = #[trigger] commit_hits(ls, q, name, path)[i];
            &&& h.label == commit_subject(#[trigger] ls[j])
            &&& contains_seq(lowercase(h.label), q)
            &&& h.open_path == path
        },
    decreases ls.len(),
{
    if ls.len() > 0 {
        let d = ls.drop_last();
        lemma_commit_hits_match(d, q, name, path);
        let before = commit_hits(d, q, name, path);
        let now = commit_hits(ls, q, name, path);
        assert forall|i: int| 0 <= i < now.len() implies exists|j: int| 0 <= j < ls.len() && {
            let h = #[trigger] now[i];
            &&& h.label == commit_subject(#[trigger] ls[j])
            &&& contains_seq(lowercase(h.label), q)
            &&& h.open_path == path
        } by {
            if i < before.len() {
                assert(now[i] == before[i]);
                let j = choose|j: int| 0 <= j < d.len() && {
                    let h = #[trigger] before[i];
                    &&& h.label == commit_subject(#[trigger] d[j])
                    &&& contains_seq(lowercase(h.label), q)
                    &&& h.open_path == path
                };
                assert(ls[j] == d[j]);
            } else {
                assert(ls[ls.len() - 1] == ls.last());
            }
        }
    }
}

proof fn lemma_file_hits_match(ls: Seq<Seq<char>>, q: Seq<char>, name: Seq<char>, path: Seq<char>, windows: bool)
    ensures
        forall|i: int| 0 <= i < file_hits(ls, q, name, path, windows).len() ==> exists|j: int| 0 <= j < ls.len() && {
            let h = #[trigger] file_hits(ls, q, name, path, windows)[i];
            &&& h.label == trim(#[trigger] ls[j])
            &&& h.label.len() > 0
            &&& contains_seq(lowercase(h.label), q) || contains_seq(lowercase(file_name(h.label).unwrap()), q)
            &&& h.open_path == join_path(path, h.label, windows)
        },
    decreases ls.len(),
{
    if ls.len() > 0 {
        let d = ls.drop_last();
        lemma_file_hits_match(d, q, name, path, windows);
        let before = file_hits(d, q, name, path, windows);
        let now = file_hits(ls, q, name, path, windows);
        assert forall|i: int| 0 <= i < now.len() implies exists|j: int| 0 <= j < ls.len() && {
            let h = #[trigger] now[i];
            &&& h.label == trim(#[trigger] ls[j])
            &&& h.label.len() > 0
            &&& contains_seq(lowercase(h.label), q) || contains_seq(lowercase(file_name(h.label).unwrap()), q)
            &&& h.open_path == join_path(path, h.label, windows)
        } by {
            if i < before.len() {
                assert(now[i] == before[i]);
                let j = choose|j: int| 0 <= j < d.len() && {
                    let h = #[trigger] before[i];
                    &&& h.label == trim(#[trigger] d[j])
                    &&& h.label.len() > 0
                    &&& contains_seq(lowercase(h.label), q) || contains_seq(lowercase(file_name(h.label).unwrap()), q)
                    &&& h.open_path == join_path(path, h.label, windows)
                };
                assert(ls[j] == d[j]);
            } else {
                assert(ls[ls.len() - 1] == ls.last());
            }
        }
    }
}

/// Law: every hit of a repository matches the query: a "commit" hit is the
/// subject of one of the listed commits and contains the query; a "file" hit
/// is one of the tracked paths (trimmed, not blank) whose path or file name
/// contains the query, and opens that file inside the repository.
pub proof fn law_commit_and_file_hits_match(r: RepoSearchView, q: Seq<char>)
    ensures
        forall|i: int| 0 <= i < repo_hits(r, q).len() && (#[trigger] repo_hits(r, q)[i]).kind == "commit"@ ==> {
            let h = repo_hits(r, q)[i];
            &&& r.log is Some
            &&& exists|j: int| 0 <= j < lines(r.log.unwrap()).len()
                && h.label == commit_subject(#[trigger] lines(r.log.unwrap())[j])
            &&& contains_seq(lowercase(h.label), q)
            &&& h.repo == r.name && h.open_path == r.path
        },
        forall|i: int| 0 <= i < repo_hits(r, q).len() && (#[trigger] repo_hits(r, q)[i]).kind == "file"@ ==> {
            let h = repo_hits(r, q)[i];
            &&& r.files is Some
            &&& exists|j: int| 0 <= j < lines(r.files.unwrap()).len()
                && h.label == trim(#[trigger] lines(r.files.unwrap())[j])
            &&& h.label.len() > 0
            &&& contains_seq(lowercase(h.label), q) || contains_seq(lowercase(file_name(h.label).unwrap()), q)
            &&& h.repo == r.name && h.open_path == join_path(r.path, h.label, r.windows)
        },
{
    lemma_kinds_differ();
    reveal_strlit("repo");
    reveal_strlit("commit");
    reveal_strlit("file");
    assert("repo"@ != "commit"@ && "repo"@ != "file"@ && "commit"@ != "file"@) by {
        assert("repo"@[0] != "commit"@[0]);
        assert("repo"@[0] != "file"@[0]);
        assert("commit"@[0] != "file"@[0]);
    }
    let name_hits = if matches_query(r.name, q) {
        seq![hit("repo"@, r.name, r.name, r.path, r.path)]
    } else {
        Seq::<SearchHitView>::empty()
    };
    let branch_hits = match branch_of(r.branch) {
        Some(b) => if matches_query(b, q) {
            seq![hit("branch"@, b + " ("@ + r.name + ")"@, r.name, r.path, r.path)]
        } else {
            Seq::<SearchHitView>::empty()
        },
        None => Seq::<SearchHitView>::empty(),
    };
    let log_hits = match r.log {
        Some(out) => commit_hits(lines(out), q, r.name, r.path),
        None => Seq::<SearchHitView>::empty(),
    };
    let files = match r.files {
        Some(out) => file_hits(lines(out), q, r.name, r.path, r.windows),
        None => Seq::<SearchHitView>::empty(),
    };
    let h = repo_hits(r, q);
    assert(h == name_hits + branch_hits + log_hits + files);
    let a = name_hits.len() + branch_hits.len();
    let b = a + log_hits.len();
    if let Some(out) = r.log {
        lemma_commit_hits_of(lines(out), q, r);
        lemma_commit_hits_match(lines(out), q, r.name, r.path);
    }
    if let Some(out) = r.files {
        lemma_file_hits_of(lines(out), q, r);
        lemma_file_hits_match(lines(out), q, r.name, r.path, r.windows);
    }
    assert forall|i: int| 0 <= i < h.len() && (#[trigger] h[i]).kind == "commit"@ implies {
        let x = h[i];
        &&& r.log is Some
        &&& exists|j: int| 0 <= j < lines(r.log.unwrap()).len()
            && x.label == commit_subject(#[trigger] lines(r.log.unwrap())[j])
        &&& contains_seq(lowercase(x.label), q)
        &&& x.repo == r.name && x.open_path == r.path
    } by {
        if i < name_hits.len() {
            assert(h[i] == name_hits[i]);
        } else if i < a {
            assert(h[i] == branch_hits[i - name_hits.len()]);
        } else if i < b {
            assert(h[i] == log_hits[i - a]);
        } else {
            assert(h[i] == files[i - b]);
        }
    }
    assert forall|i: int| 0 <= i < h.len() && (#[trigger] h[i]).kind == "file"@ implies {
        let x = h[i];
        &&& r.files is Some
        &&& exists|j: int| 0 <= j < lines(r.files.unwrap()).len()
            && x.label == trim(#[trigger] lines(r.files.unwrap())[j])
        &&& x.label.len() > 0
        &&& contains_seq(lowercase(x.label), q) || contains_seq(lowercase(file_name(x.label).unwrap()), q)
        &&& x.repo == r.name && x.open_path == join_path(r.path, x.label, r.windows)
    } by {
        if i < name_hits.len() {
            assert(h[i] == name_hits[i]);
        } else if i < a {
            assert(h[i] == branch_hits[i - name_hits.len()]);
        } else if i < b {
            assert(h[i] == log_hits[i - a]);
        } else {
            assert(h[i] == files[i - b]);
        }
    }
}

/// Law: a search keeps the hits in the order found, the first 80 of them
/// when there are more.
pub proof fn law_search_keeps_first_hits(rs: Seq<RepoSearchView>, query: Seq<char>)
    ensures
        byte_len(query) >= 2 ==> {
            let h = all_hits(rs, lowercase(query));
            &&& spec_search(rs, query).len() == if h.len() > 80 { 80 } else { h.len() }
            &&& forall|i: int| 0 <= i < spec_search(rs, query).len() ==> #[trigger] spec_search(rs, query)[i] == h[i]
        },
{
}

/// A branch hit for the repository `r`: its branch name matches `q`, and the
/// hit is labelled with that name and the repository's.
pub open spec fn branch_hit_of(h: SearchHitView, r: RepoSearchView, q: Seq<char>) -> bool {
    &&& branch_of(r.branch) is Some
    &&& contains_seq(lowercase(branch_of(r.branch).unwrap()), q)
    &&& h.label == branch_of(r.branch).unwrap() + " ("@ + r.name + ")"@
    &&& h.repo == r.name
    &&& h.repo_path == r.path
}

proof fn lemma_all_branch_hits(rs: Seq<RepoSearchView>, q: Seq<char>)
    ensures
        forall|i: int| 0 <= i < all_hits(rs, q).len() && (#[trigger] all_hits(rs, q)[i]).kind == "branch"@ ==>
            exists|k: int| 0 <= k < rs.len() && branch_hit_of(all_hits(rs, q)[i], rs[k], q),
    decreases rs.len(),
{
    if rs.len() > 0 {
        let before = all_hits(rs.drop_last(), q);
        let last = repo_hits(rs.last(), q);
        lemma_all_branch_hits(rs.drop_last(), q);
        law_branch_hit_matches_branch_name(rs.last(), q);
        lemma_repo_hits_of(rs.last(), q);
        assert forall|i: int| 0 <= i < all_hits(rs, q).len() && (#[trigger] all_hits(rs, q)[i]).kind == "branch"@ implies
            exists|k: int| 0 <= k < rs.len() && branch_hit_of(all_hits(rs, q)[i], rs[k], q) by {
            if i < before.len() {
                assert(all_hits(rs, q)[i] == before[i]);
                let k = choose|k: int| 0 <= k < rs.drop_last().len() && branch_hit_of(before[i], rs.drop_last()[k], q);
                assert(rs[k] == rs.drop_last()[k]);
            } else {
                assert(all_hits(rs, q)[i] == last[i - before.len()]);
                assert(hit_of(last[i - before.len()], rs.last()));
                assert(branch_hit_of(all_hits(rs, q)[i], rs[rs.len() - 1], q));
            }
        }
    }
}

/// Law: a search result of kind "branch" comes from a repository whose
/// current branch name itself contains the lowercased query; it is labelled
/// with that branch name followed by the repository name in brackets.
pub proof fn law_branch_results_match_branch(rs: Seq<RepoSearchView>, query: Seq<char>)
    ensures
        forall|i: int| 0 <= i < spec_search(rs, query).len() && (#[trigger] spec_search(rs, query)[i]).kind == "branch"@ ==>
            exists|k: int| #![trigger rs[k]] 0 <= k < rs.len() && {
                let b = branch_of(rs[k].branch).unwrap();
                &&& branch_of(rs[k].branch) is Some
                &&& contains_seq(lowercase(b), lowercase(query))
                &&& spec_search(rs, query)[i].label == b + " ("@ + rs[k].name + ")"@
                &&& spec_search(rs, query)[i].repo == rs[k].name
            },
{
    if byte_len(query) >= 2 {
        let q = lowercase(query);
        let h = all_hits(rs, q);
        lemma_all_branch_hits(rs, q);
        assert forall|i: int| 0 <= i < spec_search(rs, query).len() && (#[trigger] spec_search(rs, query)[i]).kind == "branch"@ implies
            exists|k: int| #![trigger rs[k]] 0 <= k < rs.len() && {
                let b = branch_of(rs[k].branch).unwrap();
                &&& branch_of(rs[k].branch) is Some
                &&& contains_seq(lowercase(b), lowercase(query))
                &&& spec_search(rs, query)[i].label == b + " ("@ + rs[k].name + ")"@
                &&& spec_search(rs, query)[i].repo == rs[k].name
            } by {
            assert(spec_search(rs, query)[i] == h[i]);
            let k = choose|k: int| 0 <= k < rs.len() && branch_hit_of(h[i], rs[k], q);
            assert(branch_hit_of(h[i], rs[k], q));
        }
    }
}

/// Law: every search result is a repository, branch, commit or file hit, and
/// names the repository (name and path) it was found in.
pub proof fn law_hits_name_their_repository(rs: Seq<RepoSearchView>, query: Seq<char>)
    ensures
        forall|i: int| 0 <= i < spec_search(rs, query).len() ==>
            exists|k: int| 0 <= k < rs.len() && hit_of(#[trigger] spec_search(rs, query)[i], rs[k]),
{
    if byte_len(query) >= 2 {
        let h = all_hits(rs, lowercase(query));
        lemma_all_hits_of(rs, lowercase(query));
        assert forall|i: int| 0 <= i < spec_search(rs, query).len() implies
            exists|k: int| 0 <= k < rs.len() && hit_of(#[trigger] spec_search(rs, query)[i], rs[k]) by {
            assert(spec_search(rs, query)[i] == h[i]);
        }
    }
}

/// Law: a search gives at most 80 results, and none for a query shorter than
/// two bytes.
pub proof fn law_search_bounded(rs: Seq<RepoSearchView>, query: Seq<char>)
    ensures
        spec_search(rs, query).len() <= 80,
        byte_len(query) < 2 ==> spec_search(rs, query).len() == 0,
{
}

} // verus!
