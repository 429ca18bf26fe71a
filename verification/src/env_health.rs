//! `.env` and secret-file health of a repository.
use vstd::prelude::*;
use crate::text::{
    has_prefix_at, slice_vec, chars_eq, contains_string, is_ws, trim_end, trim_start, has_string, trim_chars, line_state, lines, push_str, split_lines, string_of, strip_cr,
    to_chars, trim, trim_bounds,
};

verus! {

/// A problem found with a repository's environment files.
pub struct EnvHealthIssue {
    pub repo_path: String,
    pub repo_name: String,
    /// "missing_env" or "unignored_secret"
    pub issue_type: String,
    pub message: String,
    pub file_name: Option<String>,
    pub example_file: Option<String>,
}

pub struct EnvHealthIssueView {
    pub repo_path: Seq<char>,
    pub repo_name: Seq<char>,
    pub issue_type: Seq<char>,
    pub message: Seq<char>,
    pub file_name: Option<Seq<char>>,
    pub example_file: Option<Seq<char>>,
}

impl View for EnvHealthIssue {
    type V = EnvHealthIssueView;

    open spec fn view(&self) -> EnvHealthIssueView {
        EnvHealthIssueView {
            repo_path: self.repo_path@,
            repo_name: self.repo_name@,
            issue_type: self.issue_type@,
            message: self.message@,
            file_name: match self.file_name {
                Some(f) => Some(f@),
                None => None,
            },
            example_file: match self.example_file {
                Some(f) => Some(f@),
                None => None,
            },
        }
    }
}

// ---------------------------------------------------------------------------
// .gitignore
// ---------------------------------------------------------------------------

/// Whether a pattern `*.ext` matches every file name ending in `.ext`, as
/// `*.pem` does `server.pem`.
pub open spec fn extension_pattern(t: Seq<char>, file: Seq<char>) -> bool {
    &&& t.len() >= 3
    &&& t[0] == '*'
    &&& t[1] == '.'
    &&& file.len() >= t.len() - 1
    &&& file.skip(file.len() - (t.len() - 1)) == t.skip(1)
}

/// Whether one `.gitignore` line ignores `file`: the trimmed line is not empty,
/// is no comment, and is `file`, `/file`, `*.file`, or `*.ext` for a file
/// name ending in `.ext`.
pub open spec fn ignores_line(line: Seq<char>, file: Seq<char>) -> bool {
    let t = trim(line);
    &&& t.len() > 0
    &&& t[0] != '#'
    &&& (t == file || t == seq!['/'] + file || t == seq!['*', '.'] + file || extension_pattern(t, file))
}

/// Whether some line of `content` ignores `file`.
pub open spec fn spec_is_ignored(content: Seq<char>, file: Seq<char>) -> bool {
    exists|i: int| 0 <= i < lines(content).len() && ignores_line(#[trigger] lines(content)[i], file)
}

fn line_ignores(line: &Vec<char>, file: &Vec<char>, slash_file: &Vec<char>, star_file: &Vec<char>) -> (r: bool)
    requires
        slash_file@ == seq!['/'] + file@,
        star_file@ == seq!['*', '.'] + file@,
    ensures
        r == ignores_line(line@, file@),
{
    let t = trim_chars(line);
    if t.len() == 0 || t[0] == '#' {
        return false;
    }
    if chars_eq(t.as_slice(), file.as_slice()) || chars_eq(t.as_slice(), slash_file.as_slice())
        || chars_eq(t.as_slice(), star_file.as_slice()) {
        return true;
    }
    if t.len() >= 3 && t[0] == '*' && t[1] == '.' && file.len() >= t.len() - 1 {
        let rest = slice_vec(&t, 1, t.len());
        let lo = file.len() - rest.len();
        let r = has_prefix_at(file.as_slice(), lo, rest.as_slice());
        assert(rest@ =~= t@.skip(1));
        assert(file@.subrange(lo as int, lo + rest@.len()) =~= file@.skip(lo as int));
        return r;
    }
    false
}

fn prefixed(prefix: &str, file: &Vec<char>) -> (r: Vec<char>)
    ensures
        r@ == prefix@ + file@,
{
    let mut r = to_chars(prefix);
    let mut i: usize = 0;
    let ghost p = r@;
    while i < file.len()
        invariant
            i <= file.len(),
            r@ == p + file@.take(i as int),
        decreases file.len() - i,
    {
        r.push(file[i]);
        assert(p + file@.take(i + 1) =~= (p + file@.take(i as int)).push(file@[i as int]));
        i = i + 1;
    }
    assert(file@.take(file.len() as int) =~= file@);
    r
}

/// Whether a `.gitignore` content ignores `file_name` by one of its lines:
/// the trimmed line is `file_name`, `/file_name`, `*.file_name`, or `*.ext`
/// for a file name ending in `.ext` (blank lines and `#` comments never match).
pub fn is_file_ignored_in_gitignore(gitignore_content: &str, file_name: &str) -> (r: bool)
    ensures
        r == spec_is_ignored(gitignore_content@, file_name@),
{
    let chars = to_chars(gitignore_content);
    let file = to_chars(file_name);
    let slash_file = prefixed("/", &file);
    let star_file = prefixed("*.", &file);
    proof {
        reveal_strlit("/");
        reveal_strlit("*.");
    }
    let ls = split_lines(&chars);
    let ghost lv = ls.deep_view();
    let mut i: usize = 0;
    while i < ls.len()
        invariant
            i <= ls.len(),
            lv == ls.deep_view(),
            lv == lines(gitignore_content@),
            file@ == file_name@,
            slash_file@ == seq!['/'] + file@,
            star_file@ == seq!['*', '.'] + file@,
            forall|j: int| 0 <= j < i ==> !ignores_line(#[trigger] lv[j], file_name@),
        decreases ls.len() - i,
    {
        assert(ls[i as int]@ =~= lv[i as int]);
        if line_ignores(&ls[i], &file, &slash_file, &star_file) {
            return true;
        }
        i = i + 1;
    }
    false
}

/// The `.gitignore` content after adding `file` on a line of its own, or
/// `None` when some line already ignores it (the file is left unchanged).
/// A missing final newline is added before the new line.
pub open spec fn spec_gitignore_with(content: Seq<char>, file: Seq<char>) -> Option<Seq<char>> {
    if spec_is_ignored(content, file) {
        None
    } else if content.len() > 0 && content.last() != '\n' {
        Some(content + seq!['\n'] + file + seq!['\n'])
    } else {
        Some(content + file + seq!['\n'])
    }
}

/// The new `.gitignore` content that ignores `file_to_ignore`, or `None` when
/// nothing needs to be written.
pub fn gitignore_with_entry(content: &str, file_to_ignore: &str) -> (r: Option<String>)
    ensures
        match spec_gitignore_with(content@, file_to_ignore@) {
            Some(c) => r matches Some(s) && s@ == c,
            None => r is None,
        },
{
    if is_file_ignored_in_gitignore(content, file_to_ignore) {
        return None;
    }
    let chars = to_chars(content);
    let mut out = string_of(content);
    if chars.len() > 0 && chars[chars.len() - 1] != '\n' {
        push_str(&mut out, "\n");
        proof { reveal_strlit("\n"); }
    }
    push_str(&mut out, file_to_ignore);
    push_str(&mut out, "\n");
    proof { reveal_strlit("\n"); }
    Some(out)
}

/// The error for an example file that is not there to copy.
pub fn missing_example_error(example_filename: &str) -> (r: String)
    ensures
        r@ == "Example file '"@ + example_filename@ + "' does not exist"@,
{
    let mut s = string_of("Example file '");
    push_str(&mut s, example_filename);
    push_str(&mut s, "' does not exist");
    s
}

proof fn lemma_line_state_append(p: Seq<char>, q: Seq<char>)
    requires
        line_state(p).1.len() == 0,
        forall|i: int| 0 <= i < q.len() ==> q[i] != '\n',
    ensures
        line_state(p + q) == (line_state(p).0, q),
    decreases q.len(),
{
    if q.len() == 0 {
        assert(p + q =~= p);
        assert(line_state(p).1 =~= q);
    } else {
        lemma_line_state_append(p, q.drop_last());
        assert((p + q).drop_last() =~= p + q.drop_last());
        assert(q.drop_last().push(q.last()) =~= q);
    }
}

/// Law: once a plain file name (nonempty, no surrounding whitespace, no
/// leading `#`, no line break) has been added, the `.gitignore` ignores it;
/// when nothing is added it was ignored already. What was there stays in front.
pub proof fn law_added_entry_is_ignored(content: Seq<char>, file: Seq<char>)
    requires
        file.len() > 0,
        trim(file) == file,
        file[0] != '#',
        forall|i: int| 0 <= i < file.len() ==> file[i] != '\n',
    ensures
        match spec_gitignore_with(content, file) {
            Some(c) => spec_is_ignored(c, file) && c.take(content.len() as int) == content,
            None => spec_is_ignored(content, file),
        },
{
    if !spec_is_ignored(content, file) {
        let pre = if content.len() > 0 && content.last() != '\n' { content + seq!['\n'] } else { content };
        assert(line_state(pre).1.len() == 0) by {
            if content.len() > 0 && content.last() != '\n' {
                assert((content + seq!['\n']).drop_last() =~= content);
            }
        }
        lemma_line_state_append(pre, file);
        let c = pre + file + seq!['\n'];
        assert(c.drop_last() =~= pre + file);
        assert(c == spec_gitignore_with(content, file).unwrap());
        // the last character of `file` is not whitespace, so not '\r'
        assert(file.last() != '\r') by {
            if file.last() == '\r' {
                assert(trim_end(trim_start(file)) == file);
                lemma_trim_keeps_last(file);
            }
        }
        assert(strip_cr(file) == file);
        let ls = lines(c);
        assert(ls == line_state(pre).0.push(file));
        assert(ls[ls.len() - 1] == file);
        assert(ignores_line(ls[ls.len() - 1], file));
        assert(c.take(content.len() as int) =~= content);
    }
}

proof fn lemma_trim_keeps_last(s: Seq<char>)
    requires
        s.len() > 0,
        trim(s) == s,
    ensures
        !is_ws(s.last()),
{
    lemma_trim_start_len(s);
    lemma_trim_end_last(trim_start(s));
}

proof fn lemma_trim_start_len(s: Seq<char>)
    ensures
        trim_start(s).len() <= s.len(),
        trim_start(s).len() == s.len() ==> trim_start(s) == s,
    decreases s.len(),
{
    if s.len() > 0 && is_ws(s[0]) {
        lemma_trim_start_len(s.skip(1));
    }
}

proof fn lemma_trim_end_last(s: Seq<char>)
    ensures
        trim_end(s).len() <= s.len(),
        trim_end(s).len() > 0 ==> !is_ws(trim_end(s).last()),
        trim_end(s).len() == s.len() ==> trim_end(s) == s,
    decreases s.len(),
{
    if s.len() > 0 && is_ws(s.last()) {
        lemma_trim_end_last(s.drop_last());
    }
}

// ---------------------------------------------------------------------------
// Issues of one repository
// ---------------------------------------------------------------------------

/// Example files that document a repository's `.env`, in the order they are looked for.
pub open spec fn env_examples() -> Seq<Seq<char>> {
    seq![".env.example"@, ".env.template"@, ".env.dist"@, ".env.sample"@]
}

/// Files that hold secrets and should be ignored by git, in the order they are checked.
pub open spec fn env_secrets() -> Seq<Seq<char>> {
    seq![".env"@, ".env.local"@, "id_rsa"@, "credentials.json"@, "service-account.json"@]
}

/// Whether a file name ends in `.pem` (a key or certificate file).
pub open spec fn ends_with_pem(n: Seq<char>) -> bool {
    &&& n.len() >= 4
    &&& n[n.len() - 4] == '.'
    &&& n[n.len() - 3] == 'p'
    &&& n[n.len() - 2] == 'e'
    &&& n[n.len() - 1] == 'm'
}

/// The `.pem` files among the files present, in the order given.
pub open spec fn pem_files(present: Seq<String>) -> Seq<Seq<char>>
    decreases present.len(),
{
    if present.len() == 0 {
        Seq::empty()
    } else if ends_with_pem(present.last()@) {
        pem_files(present.drop_last()).push(present.last()@)
    } else {
        pem_files(present.drop_last())
    }
}

/// The secret files checked: the fixed ones, then the present `.pem` files.
pub open spec fn secret_files(present: Seq<String>) -> Seq<Seq<char>> {
    env_secrets() + pem_files(present)
}

proof fn lemma_pem_files(present: Seq<String>)
    ensures
        forall|i: int| 0 <= i < pem_files(present).len() ==> ends_with_pem(#[trigger] pem_files(present)[i]),
    decreases present.len(),
{
    if present.len() > 0 {
        lemma_pem_files(present.drop_last());
        let before = pem_files(present.drop_last());
        let now = pem_files(present);
        assert forall|i: int| 0 <= i < now.len() implies ends_with_pem(#[trigger] now[i]) by {
            if i < before.len() {
                assert(now[i] == before[i]);
            }
        }
    }
}

proof fn lemma_secret_files(present: Seq<String>)
    ensures
        forall|f: Seq<char>| #[trigger] secret_files(present).contains(f) ==> env_secrets().contains(f) || ends_with_pem(f),
{
    lemma_pem_files(present);
    assert forall|f: Seq<char>| #[trigger] secret_files(present).contains(f) implies env_secrets().contains(f) || ends_with_pem(f) by {
        let s = secret_files(present);
        let k = choose|k: int| 0 <= k < s.len() && s[k] == f;
        if k < 5 {
            assert(env_secrets()[k] == f);
        } else {
            assert(pem_files(present)[k - 5] == f);
        }
    }
}

proof fn lemma_secret_issue_shape(
    path: Seq<char>,
    name: Seq<char>,
    present: Seq<String>,
    gitignore: Seq<char>,
    cands: Seq<Seq<char>>,
)
    ensures
        forall|i: int| 0 <= i < secret_issues(path, name, present, gitignore, cands).len() ==> {
            let it = #[trigger] secret_issues(path, name, present, gitignore, cands)[i];
            &&& it.issue_type == "unignored_secret"@
            &&& it.file_name matches Some(f) && !spec_is_ignored(gitignore, f) && cands.contains(f)
                && has_string(present, f)
        },
    decreases cands.len(),
{
    if cands.len() > 0 {
        let d = cands.drop_last();
        lemma_secret_issue_shape(path, name, present, gitignore, d);
        let before = secret_issues(path, name, present, gitignore, d);
        let now = secret_issues(path, name, present, gitignore, cands);
        assert forall|i: int| 0 <= i < now.len() implies {
            let it = #[trigger] now[i];
            &&& it.issue_type == "unignored_secret"@
            &&& it.file_name matches Some(f) && !spec_is_ignored(gitignore, f) && cands.contains(f)
                && has_string(present, f)
        } by {
            if i < before.len() {
                assert(now[i] == before[i]);
                let f = before[i].file_name.unwrap();
                let j = choose|j: int| 0 <= j < d.len() && d[j] == f;
                assert(cands[j] == f);
            } else {
                assert(cands[cands.len() - 1] == cands.last());
            }
        }
    }
}

proof fn lemma_first_present(cands: Seq<Seq<char>>, present: Seq<String>)
    ensures
        first_present(cands, present) matches Some(e) ==> cands.contains(e) && has_string(present, e),
    decreases cands.len(),
{
    if cands.len() > 0 && !has_string(present, cands[0]) {
        lemma_first_present(cands.skip(1), present);
        if let Some(e) = first_present(cands.skip(1), present) {
            let j = choose|j: int| 0 <= j < cands.skip(1).len() && cands.skip(1)[j] == e;
            assert(cands[j + 1] == e);
        }
    } else if cands.len() > 0 {
        assert(cands[0] == cands[0]);
    }
}

/// A missing-`.env` issue: neither `.env` nor `.env.local` is present, and
/// it names a present example file.
pub open spec fn is_missing_env_issue(it: EnvHealthIssueView, present: Seq<String>) -> bool {
    &&& it.issue_type == "missing_env"@
    &&& !has_string(present, ".env"@)
    &&& !has_string(present, ".env.local"@)
    &&& it.example_file matches Some(e) && env_examples().contains(e) && has_string(present, e)
}

/// An un-ignored-secret issue: it names a present secret file (one of the
/// fixed names, or a `.pem` file) that the `.gitignore` does not ignore.
pub open spec fn is_unignored_issue(it: EnvHealthIssueView, present: Seq<String>, gitignore: Seq<char>) -> bool {
    &&& it.issue_type == "unignored_secret"@
    &&& it.file_name matches Some(f) && (env_secrets().contains(f) || ends_with_pem(f)) && has_string(present, f)
        && !spec_is_ignored(gitignore, f)
}

/// Law: every issue is a missing `.env` or an un-ignored secret.
pub proof fn law_issue_kinds(path: Seq<char>, name: Seq<char>, present: Seq<String>, gitignore: Seq<char>)
    ensures
        forall|i: int| 0 <= i < spec_repo_env_issues(path, name, present, gitignore).len() ==>
            is_missing_env_issue(#[trigger] spec_repo_env_issues(path, name, present, gitignore)[i], present)
            || is_unignored_issue(spec_repo_env_issues(path, name, present, gitignore)[i], present, gitignore),
{
    lemma_secret_issue_shape(path, name, present, gitignore, secret_files(present));
    lemma_secret_files(present);
    lemma_first_present(env_examples(), present);
    let issues = spec_repo_env_issues(path, name, present, gitignore);
    let sec = secret_issues(path, name, present, gitignore, secret_files(present));
    let n = issues.len() - sec.len();
    assert forall|i: int| 0 <= i < issues.len() implies
        is_missing_env_issue(#[trigger] issues[i], present) || is_unignored_issue(issues[i], present, gitignore) by {
        if i >= n {
            assert(issues[i] == sec[i - n]);
        }
    }
}

proof fn lemma_pem_present(present: Seq<String>, f: Seq<char>)
    requires
        has_string(present, f),
        ends_with_pem(f),
    ensures
        pem_files(present).contains(f),
    decreases present.len(),
{
    let k = choose|k: int| 0 <= k < present.len() && present[k]@ == f;
    if k == present.len() - 1 {
        assert(pem_files(present).last() == f);
    } else {
        let d = present.drop_last();
        assert(d[k] == present[k]);
        lemma_pem_present(d, f);
        let j = choose|j: int| 0 <= j < pem_files(d).len() && pem_files(d)[j] == f;
        if ends_with_pem(present.last()@) {
            assert(pem_files(present)[j] == f);
        }
    }
}

proof fn lemma_secret_issue_found(
    path: Seq<char>,
    name: Seq<char>,
    present: Seq<String>,
    gitignore: Seq<char>,
    cands: Seq<Seq<char>>,
    f: Seq<char>,
)
    requires
        cands.contains(f),
        has_string(present, f),
        !spec_is_ignored(gitignore, f),
    ensures
        secret_issues(path, name, present, gitignore, cands).contains(unignored_secret_issue(path, name, f)),
    decreases cands.len(),
{
    let now = secret_issues(path, name, present, gitignore, cands);
    if cands.last() == f {
        assert(now.last() == unignored_secret_issue(path, name, f));
    } else {
        let d = cands.drop_last();
        let j = choose|j: int| 0 <= j < cands.len() && cands[j] == f;
        assert(d[j] == f);
        lemma_secret_issue_found(path, name, present, gitignore, d, f);
        let before = secret_issues(path, name, present, gitignore, d);
        let k = choose|k: int| 0 <= k < before.len() && before[k] == unignored_secret_issue(path, name, f);
        assert(now[k] == before[k]);
    }
}

/// Law: each of `.env`, `.env.local`, `id_rsa`, `credentials.json`,
/// `service-account.json` and every `.pem` file that is present and that the
/// `.gitignore` does not ignore is reported as an un-ignored secret, with the
/// message "File '<name>' is present but not in .gitignore".
pub proof fn law_unignored_secrets_reported(
    path: Seq<char>,
    name: Seq<char>,
    present: Seq<String>,
    gitignore: Seq<char>,
    f: Seq<char>,
)
    requires
        f == ".env"@ || f == ".env.local"@ || f == "id_rsa"@ || f == "credentials.json"@
            || f == "service-account.json"@ || ends_with_pem(f),
        has_string(present, f),
        !spec_is_ignored(gitignore, f),
    ensures
        exists|i: int| 0 <= i < spec_repo_env_issues(path, name, present, gitignore).len() && {
            let it = #[trigger] spec_repo_env_issues(path, name, present, gitignore)[i];
            &&& it.issue_type == "unignored_secret"@
            &&& it.file_name == Some(f)
            &&& it.message == "File '"@ + f + "' is present but not in .gitignore"@
            &&& it.repo_path == path
            &&& it.repo_name == name
        },
{
    let cands = secret_files(present);
    let e = env_secrets();
    if ends_with_pem(f) {
        lemma_pem_present(present, f);
        let j = choose|j: int| 0 <= j < pem_files(present).len() && pem_files(present)[j] == f;
        assert(cands[j + 5] == f);
    } else if f == ".env"@ {
        assert(cands[0] == f);
    } else if f == ".env.local"@ {
        assert(cands[1] == f);
    } else if f == "id_rsa"@ {
        assert(cands[2] == f);
    } else if f == "credentials.json"@ {
        assert(cands[3] == f);
    } else {
        assert(cands[4] == f);
    }
    lemma_secret_issue_found(path, name, present, gitignore, cands, f);
    let issues = spec_repo_env_issues(path, name, present, gitignore);
    let sec = secret_issues(path, name, present, gitignore, cands);
    let n = issues.len() - sec.len();
    let k = choose|k: int| 0 <= k < sec.len() && sec[k] == unignored_secret_issue(path, name, f);
    assert(issues[n + k] == sec[k]);
}

/// Law: when neither `.env` nor `.env.local` is present, the first issue
/// names the first present example file among `.env.example`,
/// `.env.template`, `.env.dist` and `.env.sample`, in that order; when none
/// of them is present either, or `.env` or `.env.local` is, there is no
/// missing-`.env` issue.
pub proof fn law_missing_env_names_first_example(
    path: Seq<char>,
    name: Seq<char>,
    present: Seq<String>,
    gitignore: Seq<char>,
)
    ensures
        ({
            let issues = spec_repo_env_issues(path, name, present, gitignore);
            let no_env = !has_string(present, ".env"@) && !has_string(present, ".env.local"@);
            let ex = if has_string(present, ".env.example"@) {
                Some(".env.example"@)
            } else if has_string(present, ".env.template"@) {
                Some(".env.template"@)
            } else if has_string(present, ".env.dist"@) {
                Some(".env.dist"@)
            } else if has_string(present, ".env.sample"@) {
                Some(".env.sample"@)
            } else {
                None
            };
            &&& (no_env && ex is Some) ==> issues.len() > 0 && issues[0].issue_type == "missing_env"@
                && issues[0].example_file == ex && issues[0].file_name == Some(".env"@)
                && issues[0].message == "Found "@ + ex.unwrap() + " but missing local .env file"@
            &&& (!no_env || ex is None) ==> forall|i: int| 0 <= i < issues.len() ==>
                (#[trigger] issues[i]).issue_type == "unignored_secret"@
        }),
{
    let l = env_examples();
    assert(l.skip(1) =~= seq![".env.template"@, ".env.dist"@, ".env.sample"@]);
    assert(l.skip(1).skip(1) =~= seq![".env.dist"@, ".env.sample"@]);
    assert(l.skip(1).skip(1).skip(1) =~= seq![".env.sample"@]);
    assert(l.skip(1).skip(1).skip(1).skip(1) =~= Seq::<Seq<char>>::empty());
    let l1 = l.skip(1);
    let l2 = l1.skip(1);
    let l3 = l2.skip(1);
    assert(first_present(l3.skip(1), present) is None);
    assert(first_present(l3, present) == if has_string(present, ".env.sample"@) {
        Some(".env.sample"@)
    } else {
        None
    });
    assert(first_present(l2, present) == if has_string(present, ".env.dist"@) {
        Some(".env.dist"@)
    } else {
        first_present(l3, present)
    });
    assert(first_present(l1, present) == if has_string(present, ".env.template"@) {
        Some(".env.template"@)
    } else {
        first_present(l2, present)
    });
    assert(first_present(l, present) == if has_string(present, ".env.example"@) {
        Some(".env.example"@)
    } else {
        first_present(l1, present)
    });
    reveal_strlit("missing_env");
    reveal_strlit("unignored_secret");
    let cands = secret_files(present);
    lemma_secret_issue_shape(path, name, present, gitignore, cands);
    let issues = spec_repo_env_issues(path, name, present, gitignore);
    let sec = secret_issues(path, name, present, gitignore, cands);
    let n = issues.len() - sec.len();
    assert forall|i: int| n <= i < issues.len() implies (#[trigger] issues[i]).issue_type == "unignored_secret"@ by {
        assert(issues[i] == sec[i - n]);
    }
}

/// The first of `cands` that is present.
pub open spec fn first_present(cands: Seq<Seq<char>>, present: Seq<String>) -> Option<Seq<char>>
    decreases cands.len(),
{
    if cands.len() == 0 {
        None
    } else if has_string(present, cands[0]) {
        Some(cands[0])
    } else {
        first_present(cands.skip(1), present)
    }
}

pub open spec fn missing_env_issue(path: Seq<char>, name: Seq<char>, example: Seq<char>) -> EnvHealthIssueView {
    EnvHealthIssueView {
        repo_path: path,
        repo_name: name,
        issue_type: "missing_env"@,
        message: "Found "@ + example + " but missing local .env file"@,
        file_name: Some(".env"@),
        example_file: Some(example),
    }
}

pub open spec fn unignored_secret_issue(path: Seq<char>, name: Seq<char>, secret: Seq<char>) -> EnvHealthIssueView {
    EnvHealthIssueView {
        repo_path: path,
        repo_name: name,
        issue_type: "unignored_secret"@,
        message: "File '"@ + secret + "' is present but not in .gitignore"@,
        file_name: Some(secret),
        example_file: None,
    }
}

/// One issue per candidate secret file that is present but not ignored.
pub open spec fn secret_issues(
    path: Seq<char>,
    name: Seq<char>,
    present: Seq<String>,
    gitignore: Seq<char>,
    cands: Seq<Seq<char>>,
) -> Seq<EnvHealthIssueView>
    decreases cands.len(),
{
    if cands.len() == 0 {
        Seq::empty()
    } else {
        let before = secret_issues(path, name, present, gitignore, cands.drop_last());
        let f = cands.last();
        if has_string(present, f) && !spec_is_ignored(gitignore, f) {
            before.push(unignored_secret_issue(path, name, f))
        } else {
            before
        }
    }
}

/// The issues of a repository: when neither `.env` nor `.env.local` is present
/// but an example file is, one issue naming the first such example; then one
/// issue per present secret file that the `.gitignore` does not ignore.
pub open spec fn spec_repo_env_issues(
    path: Seq<char>,
    name: Seq<char>,
    present: Seq<String>,
    gitignore: Seq<char>,
) -> Seq<EnvHealthIssueView> {
    let has_env = has_string(present, ".env"@) || has_string(present, ".env.local"@);
    let first = if has_env {
        Seq::empty()
    } else {
        match first_present(env_examples(), present) {
            Some(ex) => seq![missing_env_issue(path, name, ex)],
            None => Seq::empty(),
        }
    };
    first + secret_issues(path, name, present, gitignore, secret_files(present))
}

fn make_missing_env_issue(repo_path: &str, repo_name: &str, example: &str) -> (r: EnvHealthIssue)
    ensures
        r@ == missing_env_issue(repo_path@, repo_name@, example@),
{
    let mut message = string_of("Found ");
    push_str(&mut message, example);
    push_str(&mut message, " but missing local .env file");
    EnvHealthIssue {
        repo_path: string_of(repo_path),
        repo_name: string_of(repo_name),
        issue_type: string_of("missing_env"),
        message,
        file_name: Some(string_of(".env")),
        example_file: Some(string_of(example)),
    }
}

fn make_secret_issue(repo_path: &str, repo_name: &str, secret: &str) -> (r: EnvHealthIssue)
    ensures
        r@ == unignored_secret_issue(repo_path@, repo_name@, secret@),
{
    let mut message = string_of("File '");
    push_str(&mut message, secret);
    push_str(&mut message, "' is present but not in .gitignore");
    EnvHealthIssue {
        repo_path: string_of(repo_path),
        repo_name: string_of(repo_name),
        issue_type: string_of("unignored_secret"),
        message,
        file_name: Some(string_of(secret)),
        example_file: None,
    }
}

/// The environment-file issues of one repository, given which of the candidate
/// files are present (`present` names them) and its `.gitignore` content
/// (empty when there is none).
pub fn repo_env_issues(
    repo_path: &str,
    repo_name: &str,
    present: &Vec<String>,
    gitignore_content: &str,
) -> (r: Vec<EnvHealthIssue>)
    ensures
        r@.map_values(|i: EnvHealthIssue| i@) == spec_repo_env_issues(
            repo_path@,
            repo_name@,
            present@,
            gitignore_content@,
        ),
{
    let mut issues: Vec<EnvHealthIssue> = Vec::new();
    let has_env = contains_string(present, ".env") || contains_string(present, ".env.local");
    let examples: [&str; 4] = [".env.example", ".env.template", ".env.dist", ".env.sample"];
    let ghost ex_view = examples@.map_values(|e: &str| e@);
    assert(ex_view =~= env_examples());
    if !has_env {
        let ghost fp = first_present(env_examples(), present@);
        assert(ex_view.skip(0) =~= ex_view);
        let mut k: usize = 0;
        let mut found = false;
        while !found && k < 4
            invariant
                k <= 4,
                ex_view == examples@.map_values(|e: &str| e@),
                ex_view == env_examples(),
                fp == first_present(env_examples(), present@),
                !found ==> fp == first_present(ex_view.skip(k as int), present@),
                found ==> k < 4 && fp == Some(ex_view[k as int]),
            decreases 4 - k + (if found { 0int } else { 1int }),
        {
            let ex = examples[k];
            assert(ex_view.skip(k as int)[0] == ex@);
            assert(ex_view.skip(k as int).skip(1) =~= ex_view.skip(k + 1));
            if contains_string(present, ex) {
                found = true;
            } else {
                k = k + 1;
            }
        }
        if found {
            issues.push(make_missing_env_issue(repo_path, repo_name, examples[k]));
        } else {
            assert(ex_view.skip(4) =~= Seq::<Seq<char>>::empty());
        }
    }
    let ghost head = issues@.map_values(|i: EnvHealthIssue| i@);
    assert(head =~= (if has_env {
        Seq::empty()
    } else {
        match first_present(env_examples(), present@) {
            Some(ex) => seq![missing_env_issue(repo_path@, repo_name@, ex)],
            None => Seq::empty(),
        }
    }));
    let secrets: [&str; 5] = [".env", ".env.local", "id_rsa", "credentials.json", "service-account.json"];
    let ghost sec_view = secrets@.map_values(|e: &str| e@);
    assert(sec_view =~= env_secrets());
    let mut k: usize = 0;
    while k < 5
        invariant
            k <= 5,
            sec_view == secrets@.map_values(|e: &str| e@),
            sec_view == env_secrets(),
            issues@.map_values(|i: EnvHealthIssue| i@) == head + secret_issues(
                repo_path@, repo_name@, present@, gitignore_content@, sec_view.take(k as int)),
        decreases 5 - k,
    {
        let sec = secrets[k];
        assert(sec_view.take(k + 1).drop_last() =~= sec_view.take(k as int));
        assert(sec_view.take(k + 1).last() == sec@);
        if contains_string(present, sec) && !is_file_ignored_in_gitignore(gitignore_content, sec) {
            let ghost before = issues@.map_values(|i: EnvHealthIssue| i@);
            issues.push(make_secret_issue(repo_path, repo_name, sec));
            assert(issues@.map_values(|i: EnvHealthIssue| i@) =~= before.push(
                unignored_secret_issue(repo_path@, repo_name@, sec@)));
        }
        k = k + 1;
    }
    assert(sec_view.take(5) =~= sec_view);
    let mut i: usize = 0;
    assert(env_secrets() + pem_files(present@.take(0)) =~= env_secrets());
    while i < present.len()
        invariant
            i <= present.len(),
            issues@.map_values(|x: EnvHealthIssue| x@) == head + secret_issues(
                repo_path@, repo_name@, present@, gitignore_content@, env_secrets() + pem_files(present@.take(i as int))),
        decreases present.len() - i,
    {
        let ghost cands = env_secrets() + pem_files(present@.take(i as int));
        assert(present@.take(i + 1).drop_last() =~= present@.take(i as int));
        let name = &present[i];
        let c = to_chars(name.as_str());
        let n = c.len();
        let pem = n >= 4 && c[n - 4] == '.' && c[n - 3] == 'p' && c[n - 2] == 'e' && c[n - 1] == 'm';
        assert(pem == ends_with_pem(name@));
        if pem {
            let ghost next = cands.push(name@);
            assert(env_secrets() + pem_files(present@.take(i + 1)) =~= next);
            assert(next.drop_last() =~= cands);
            assert(has_string(present@, name@)) by {
                assert(present@[i as int]@ == name@);
            }
            if !is_file_ignored_in_gitignore(gitignore_content, name.as_str()) {
                let ghost before = issues@.map_values(|x: EnvHealthIssue| x@);
                issues.push(make_secret_issue(repo_path, repo_name, name.as_str()));
                assert(issues@.map_values(|x: EnvHealthIssue| x@) =~= before.push(
                    unignored_secret_issue(repo_path@, repo_name@, name@)));
            }
        } else {
            assert(env_secrets() + pem_files(present@.take(i + 1)) =~= cands);
        }
        i = i + 1;
    }
    assert(present@.take(present.len() as int) =~= present@);
    issues
}

/// What is known of one repository's environment files: its path and name,
/// the names of the files at its top level, and its `.gitignore` content
/// (empty when there is none).
pub struct RepoEnvFiles {
    pub path: String,
    pub name: String,
    pub present: Vec<String>,
    pub gitignore: String,
}

pub open spec fn env_issues_of(rs: Seq<RepoEnvFiles>) -> Seq<EnvHealthIssueView>
    decreases rs.len(),
{
    if rs.len() == 0 {
        Seq::empty()
    } else {
        let r = rs.last();
        env_issues_of(rs.drop_last()) + spec_repo_env_issues(r.path@, r.name@, r.present@, r.gitignore@)
    }
}

proof fn lemma_secret_paths(
    path: Seq<char>,
    name: Seq<char>,
    present: Seq<String>,
    gitignore: Seq<char>,
    cands: Seq<Seq<char>>,
)
    ensures
        forall|i: int| 0 <= i < secret_issues(path, name, present, gitignore, cands).len() ==>
            (#[trigger] secret_issues(path, name, present, gitignore, cands)[i]).repo_path == path,
    decreases cands.len(),
{
    if cands.len() > 0 {
        lemma_secret_paths(path, name, present, gitignore, cands.drop_last());
        let before = secret_issues(path, name, present, gitignore, cands.drop_last());
        let now = secret_issues(path, name, present, gitignore, cands);
        assert forall|i: int| 0 <= i < now.len() implies (#[trigger] now[i]).repo_path == path by {
            if i < before.len() {
                assert(now[i] == before[i]);
            }
        }
    }
}

/// Law: across repositories, a missing-`.env` issue only ever names a
/// repository (by its path) without a `.env`: once the quick fix has copied
/// the example into place, that repository gets no such issue.
pub proof fn law_missing_env_only_without_env(rs: Seq<RepoEnvFiles>)
    ensures
        forall|i: int| 0 <= i < env_issues_of(rs).len() && (#[trigger] env_issues_of(rs)[i]).issue_type == "missing_env"@
            ==> exists|k: int| 0 <= k < rs.len() && env_issues_of(rs)[i].repo_path == (#[trigger] rs[k]).path@
                && !has_string(rs[k].present@, ".env"@),
    decreases rs.len(),
{
    reveal_strlit("missing_env");
    reveal_strlit("unignored_secret");
    assert("missing_env"@.len() != "unignored_secret"@.len());
    if rs.len() > 0 {
        let d = rs.drop_last();
        law_missing_env_only_without_env(d);
        let r = rs.last();
        let before = env_issues_of(d);
        let mine = spec_repo_env_issues(r.path@, r.name@, r.present@, r.gitignore@);
        let all = env_issues_of(rs);
        law_issue_kinds(r.path@, r.name@, r.present@, r.gitignore@);
        lemma_secret_paths(r.path@, r.name@, r.present@, r.gitignore@, secret_files(r.present@));
        assert forall|i: int| 0 <= i < all.len() && (#[trigger] all[i]).issue_type == "missing_env"@ implies
            exists|k: int| 0 <= k < rs.len() && all[i].repo_path == (#[trigger] rs[k]).path@
                && !has_string(rs[k].present@, ".env"@) by {
            if i < before.len() {
                assert(all[i] == before[i]);
                let k = choose|k: int| 0 <= k < d.len() && before[i].repo_path == (#[trigger] d[k]).path@
                    && !has_string(d[k].present@, ".env"@);
                assert(rs[k] == d[k]);
            } else {
                let j = i - before.len();
                assert(all[i] == mine[j]);
                assert(is_missing_env_issue(mine[j], r.present@));
                let sec = secret_issues(r.path@, r.name@, r.present@, r.gitignore@, secret_files(r.present@));
                let n = mine.len() - sec.len();
                if j >= n {
                    assert(mine[j] == sec[j - n]);
                } else {
                    assert(mine[j].repo_path == r.path@);
                }
                assert(rs[rs.len() - 1] == r);
            }
        }
    }
}

/// The environment-file issues of every repository, in order.
pub fn scan_env_health(repos: &Vec<RepoEnvFiles>) -> (r: Vec<EnvHealthIssue>)
    ensures
        r@.map_values(|i: EnvHealthIssue| i@) == env_issues_of(repos@),
{
    let mut out: Vec<EnvHealthIssue> = Vec::new();
    let mut i: usize = 0;
    while i < repos.len()
        invariant
            i <= repos.len(),
            out@.map_values(|x: EnvHealthIssue| x@) == env_issues_of(repos@.take(i as int)),
        decreases repos.len() - i,
    {
        assert(repos@.take(i + 1).drop_last() =~= repos@.take(i as int));
        let r = &repos[i];
        let issues = repo_env_issues(r.path.as_str(), r.name.as_str(), &r.present, r.gitignore.as_str());
        let ghost before = out@.map_values(|x: EnvHealthIssue| x@);
        let mut k: usize = 0;
        let mut issues = issues;
        let ghost iv = issues@.map_values(|x: EnvHealthIssue| x@);
        while k < issues.len()
            invariant
                k <= issues.len(),
                iv == issues@.map_values(|x: EnvHealthIssue| x@),
                out@.map_values(|x: EnvHealthIssue| x@) == before + iv.take(k as int),
            decreases issues.len() - k,
        {
            let ghost o = out@.map_values(|x: EnvHealthIssue| x@);
            let it = EnvHealthIssue {
                repo_path: issues[k].repo_path.clone(),
                repo_name: issues[k].repo_name.clone(),
                issue_type: issues[k].issue_type.clone(),
                message: issues[k].message.clone(),
                file_name: match &issues[k].file_name {
                    Some(f) => Some(f.clone()),
                    None => None,
                },
                example_file: match &issues[k].example_file {
                    Some(f) => Some(f.clone()),
                    None => None,
                },
            };
            out.push(it);
            assert(out@.map_values(|x: EnvHealthIssue| x@) =~= o.push(iv[k as int]));
            assert(before + iv.take(k + 1) =~= (before + iv.take(k as int)).push(iv[k as int]));
            k = k + 1;
        }
        assert(iv.take(issues.len() as int) =~= iv);
        i = i + 1;
    }
    assert(repos@.take(repos.len() as int) =~= repos@);
    out
}

} // verus!
