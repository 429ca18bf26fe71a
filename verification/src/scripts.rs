//! Quick actions offered for a repository, and the report of a finished run.
use vstd::prelude::*;
use crate::text::{keys_ascending, lemma_seq_less_irreflexive, push_str, seq_less, string_of};

verus! {

/// A command the user can run in a repository.
pub struct ScriptAction {
    pub name: String,
    pub command: String,
    pub args: Vec<String>,
    /// "package", "rust", "docker" or "git"
    pub category: String,
    pub description: String,
}

pub struct ScriptActionView {
    pub name: Seq<char>,
    pub command: Seq<char>,
    pub args: Seq<Seq<char>>,
    pub category: Seq<char>,
    pub description: Seq<char>,
}

impl View for ScriptAction {
    type V = ScriptActionView;

    open spec fn view(&self) -> ScriptActionView {
        ScriptActionView {
            name: self.name@,
            command: self.command@,
            args: self.args.deep_view(),
            category: self.category@,
            description: self.description@,
        }
    }
}

/// What is known of a repository folder: whether it exists, the scripts of
/// its `package.json` as its `scripts` map lists them (name and command, in
/// ascending order of name, each name once; `None` when there is no such
/// file, it does not parse, or it has no `scripts`), whether it has a
/// `Cargo.toml`, a compose file and a `.git`, and whether the host is Windows.
pub struct RepoMarkers {
    pub exists: bool,
    pub npm_scripts: Option<Vec<(String, String)>>,
    pub cargo_toml: bool,
    pub compose_file: bool,
    pub git_dir: bool,
    pub windows: bool,
}

pub open spec fn act(name: Seq<char>, command: Seq<char>, args: Seq<Seq<char>>, category: Seq<char>, description: Seq<char>) -> ScriptActionView {
    ScriptActionView { name, command, args, category, description }
}

/// The action running one npm script.
pub open spec fn npm_action(script: Seq<char>, cmd: Seq<char>, windows: bool) -> ScriptActionView {
    act(
        "npm run "@ + script,
        if windows { "npm.cmd"@ } else { "npm"@ },
        seq!["run"@, script],
        "package"@,
        cmd,
    )
}

pub open spec fn npm_actions(scripts: Seq<(Seq<char>, Seq<char>)>, windows: bool) -> Seq<ScriptActionView> {
    scripts.map_values(|p: (Seq<char>, Seq<char>)| npm_action(p.0, p.1, windows))
}

pub open spec fn cargo_actions() -> Seq<ScriptActionView> {
    seq![
        act("cargo run"@, "cargo"@, seq!["run"@], "rust"@, "Build and run Rust project"@),
        act("cargo test"@, "cargo"@, seq!["test"@], "rust"@, "Run Rust test suite"@),
        act("cargo check"@, "cargo"@, seq!["check"@], "rust"@, "Fast compilation check"@),
    ]
}

pub open spec fn docker_actions() -> Seq<ScriptActionView> {
    seq![
        act("docker compose up -d"@, "docker"@, seq!["compose"@, "up"@, "-d"@], "docker"@, "Start containers in background"@),
        act("docker compose down"@, "docker"@, seq!["compose"@, "down"@], "docker"@, "Stop and remove containers"@),
    ]
}

pub open spec fn git_actions() -> Seq<ScriptActionView> {
    seq![
        act("git pull"@, "git"@, seq!["pull"@], "git"@, "Fetch and merge remote changes"@),
        act("git fetch"@, "git"@, seq!["fetch"@, "--all"@], "git"@, "Fetch remote refs and branches"@),
    ]
}

/// The npm scripts of a repository (none when it has no `scripts` map).
pub open spec fn npm_scripts_of(scripts: Option<Vec<(String, String)>>) -> Seq<(Seq<char>, Seq<char>)> {
    match scripts {
        Some(v) => v.deep_view(),
        None => Seq::empty(),
    }
}

/// The actions for a repository: none when the folder is missing; otherwise
/// one per npm script, then cargo run/test/check with a `Cargo.toml`, docker
/// compose up/down with a compose file, and git pull/fetch in a git repository.
pub open spec fn spec_repo_scripts(m: RepoMarkers) -> Seq<ScriptActionView> {
    if !m.exists {
        Seq::empty()
    } else {
        npm_actions(npm_scripts_of(m.npm_scripts), m.windows) + fixed_actions(m)
    }
}

/// Whether an action's category is one of `package`, `rust`, `docker`, `git`.
pub open spec fn known_category(a: ScriptActionView) -> bool {
    a.category == "package"@ || a.category == "rust"@ || a.category == "docker"@ || a.category == "git"@
}

/// Law: every action offered is in one of the four categories, and each npm
/// action runs `npm run` with its script's name.
pub proof fn law_action_categories(m: RepoMarkers)
    ensures
        forall|i: int| 0 <= i < spec_repo_scripts(m).len() ==> known_category(#[trigger] spec_repo_scripts(m)[i]),
        forall|i: int| 0 <= i < npm_scripts_of(m.npm_scripts).len() && m.exists ==>
            (#[trigger] spec_repo_scripts(m)[i]).args == seq!["run"@, npm_scripts_of(m.npm_scripts)[i].0],
{
    if m.exists {
        let npm = npm_actions(npm_scripts_of(m.npm_scripts), m.windows);
        let a = npm + (if m.cargo_toml { cargo_actions() } else { Seq::empty() });
        let b = a + (if m.compose_file { docker_actions() } else { Seq::empty() });
        let r = spec_repo_scripts(m);
        assert forall|i: int| 0 <= i < r.len() implies known_category(#[trigger] r[i]) by {
            if i < npm.len() {
                assert(r[i] == npm[i]);
            } else if i < a.len() {
                assert(r[i] == a[i]);
            } else if i < b.len() {
                assert(r[i] == b[i]);
            }
        }
        assert forall|i: int| 0 <= i < npm_scripts_of(m.npm_scripts).len() implies
            (#[trigger] r[i]).args == seq!["run"@, npm_scripts_of(m.npm_scripts)[i].0] by {
            assert(r[i] == npm[i]);
        }
    }
}

/// The cargo, docker and git actions a repository has.
pub open spec fn fixed_actions(m: RepoMarkers) -> Seq<ScriptActionView> {
    (if m.cargo_toml { cargo_actions() } else { Seq::empty() })
        + (if m.compose_file { docker_actions() } else { Seq::empty() })
        + (if m.git_dir { git_actions() } else { Seq::empty() })
}

/// The place of a fixed action's name among all of them, by its first
/// character and length.
spec fn name_rank(n: Seq<char>) -> int {
    if n[0] == 'c' {
        n.len() - 9
    } else if n[0] == 'd' {
        if n.len() == 20 { 3 } else { 4 }
    } else {
        if n.len() == 8 { 5 } else { 6 }
    }
}

spec fn pos_rank(m: RepoMarkers, k: int) -> int {
    let c = if m.cargo_toml { 3int } else { 0int };
    let d = if m.compose_file { 2int } else { 0int };
    if k < c { k } else if k < c + d { 3 + (k - c) } else { 5 + (k - c - d) }
}

proof fn lemma_fixed_at(m: RepoMarkers, k: int)
    requires
        0 <= k < fixed_actions(m).len(),
    ensures
        fixed_actions(m)[k].name.len() > 0,
        fixed_actions(m)[k].name[0] != 'n',
        name_rank(fixed_actions(m)[k].name) == pos_rank(m, k),
        0 <= pos_rank(m, k) <= 6,
{
    reveal_strlit("cargo run");
    reveal_strlit("cargo test");
    reveal_strlit("cargo check");
    reveal_strlit("docker compose up -d");
    reveal_strlit("docker compose down");
    reveal_strlit("git pull");
    reveal_strlit("git fetch");
    let c = if m.cargo_toml { cargo_actions() } else { Seq::empty() };
    let d = if m.compose_file { docker_actions() } else { Seq::empty() };
    let g = if m.git_dir { git_actions() } else { Seq::empty() };
    let t = fixed_actions(m);
    assert(t == c + d + g);
    if k < c.len() {
        assert(t[k] == c[k]);
        if k == 0 {
            assert(c[0].name == "cargo run"@);
        } else if k == 1 {
            assert(c[1].name == "cargo test"@);
        } else {
            assert(c[2].name == "cargo check"@);
        }
    } else if k < c.len() + d.len() {
        let o = k - c.len();
        assert(t[k] == d[o]);
        if o == 0 {
            assert(d[0].name == "docker compose up -d"@);
        } else {
            assert(d[1].name == "docker compose down"@);
        }
    } else {
        let o = k - c.len() - d.len();
        assert(t[k] == g[o]);
        if o == 0 {
            assert(g[0].name == "git pull"@);
        } else {
            assert(g[1].name == "git fetch"@);
        }
    }
}

proof fn lemma_fixed_names(m: RepoMarkers)
    ensures
        forall|i: int, j: int| 0 <= i < j < fixed_actions(m).len() ==>
            (#[trigger] fixed_actions(m)[i]).name != (#[trigger] fixed_actions(m)[j]).name,
        forall|i: int| 0 <= i < fixed_actions(m).len() ==>
            (#[trigger] fixed_actions(m)[i]).name.len() > 0 && fixed_actions(m)[i].name[0] != 'n',
{
    let t = fixed_actions(m);
    assert forall|i: int| 0 <= i < t.len() implies (#[trigger] t[i]).name.len() > 0 && t[i].name[0] != 'n' by {
        lemma_fixed_at(m, i);
    }
    assert forall|i: int, j: int| 0 <= i < j < t.len() implies (#[trigger] t[i]).name != (#[trigger] t[j]).name by {
        lemma_fixed_at(m, i);
        lemma_fixed_at(m, j);
        assert(pos_rank(m, i) < pos_rank(m, j));
    }
}

/// Law: the actions offered have distinct names, when the npm script names
/// are in strictly ascending order (as a `scripts` map lists them).
pub proof fn law_action_names_distinct(m: RepoMarkers)
    requires
        keys_ascending(npm_scripts_of(m.npm_scripts)),
    ensures
        forall|i: int, j: int| 0 <= i < j < spec_repo_scripts(m).len() ==>
            (#[trigger] spec_repo_scripts(m)[i]).name != (#[trigger] spec_repo_scripts(m)[j]).name,
{
    if m.exists {
        reveal_strlit("npm run ");
        let sv = npm_scripts_of(m.npm_scripts);
        let npm = npm_actions(sv, m.windows);
        let t = fixed_actions(m);
        lemma_fixed_names(m);
        let r = spec_repo_scripts(m);
        assert(r =~= npm + t);
        assert forall|i: int, j: int| 0 <= i < j < r.len() implies (#[trigger] r[i]).name != (#[trigger] r[j]).name by {
            if j < npm.len() {
                assert(r[i] == npm[i] && r[j] == npm[j]);
                let a = sv[i].0;
                let b = sv[j].0;
                assert(seq_less(a, b));
                if a == b {
                    lemma_seq_less_irreflexive(a);
                }
                if r[i].name == r[j].name {
                    assert(("npm run "@ + a).skip(8) =~= a);
                    assert(("npm run "@ + b).skip(8) =~= b);
                }
            } else if i < npm.len() {
                assert(r[i] == npm[i]);
                assert(r[j] == t[j - npm.len()]);
                assert(r[i].name[0] == 'n');
            } else {
                assert(r[i] == t[i - npm.len()] && r[j] == t[j - npm.len()]);
            }
        }
    }
}

/// The words `w` joined by single spaces.
pub open spec fn join_words(w: Seq<Seq<char>>) -> Seq<char>
    decreases w.len(),
{
    if w.len() == 0 {
        Seq::empty()
    } else if w.len() == 1 {
        w[0]
    } else {
        join_words(w.drop_last()) + " "@ + w.last()
    }
}

/// Whether an action's name spells out the command line it runs: the npm
/// program's name and its arguments for an npm script, the command and its
/// arguments otherwise; `git fetch` alone runs `git fetch --all`.
pub open spec fn name_spells_command(a: ScriptActionView, windows: bool) -> bool {
    if a.category == "package"@ {
        &&& a.name == "npm "@ + join_words(a.args)
        &&& a.command == (if windows { "npm.cmd"@ } else { "npm"@ })
    } else if a.name == "git fetch"@ {
        &&& a.command == "git"@
        &&& a.args == seq!["fetch"@, "--all"@]
    } else {
        a.name == a.command + " "@ + join_words(a.args)
    }
}

proof fn lemma_join_two(a: Seq<char>, b: Seq<char>)
    ensures
        join_words(seq![a, b]) == a + " "@ + b,
{
    assert(seq![a, b].drop_last() =~= seq![a]);
    assert(join_words(seq![a]) == a);
}

proof fn lemma_fixed_spelled(m: RepoMarkers, k: int)
    requires
        0 <= k < fixed_actions(m).len(),
    ensures
        name_spells_command(fixed_actions(m)[k], m.windows),
{
    reveal_strlit("cargo run");
    reveal_strlit("cargo test");
    reveal_strlit("cargo check");
    reveal_strlit("docker compose up -d");
    reveal_strlit("docker compose down");
    reveal_strlit("git pull");
    reveal_strlit("git fetch");
    reveal_strlit("cargo");
    reveal_strlit("docker");
    reveal_strlit("git");
    reveal_strlit("run");
    reveal_strlit("test");
    reveal_strlit("check");
    reveal_strlit("compose");
    reveal_strlit("up");
    reveal_strlit("-d");
    reveal_strlit("down");
    reveal_strlit("pull");
    reveal_strlit(" ");
    reveal_strlit("package");
    reveal_strlit("rust");
    let c = if m.cargo_toml { cargo_actions() } else { Seq::empty() };
    let d = if m.compose_file { docker_actions() } else { Seq::empty() };
    let g = if m.git_dir { git_actions() } else { Seq::empty() };
    let t = fixed_actions(m);
    assert(t == c + d + g);
    if k < c.len() {
        assert(t[k] == c[k]);
        assert(c[k].category == "rust"@);
        assert("rust"@.len() != "package"@.len());
        if k == 0 {
            assert(c[k].name == "cargo run"@ && c[k].args == seq!["run"@]);
            assert("cargo run"@.len() != "git fetch"@.len() || "cargo run"@[0] != "git fetch"@[0]);
            assert("cargo run"@ =~= "cargo"@ + " "@ + "run"@);
        } else if k == 1 {
            assert(c[k].name == "cargo test"@ && c[k].args == seq!["test"@]);
            assert("cargo test"@.len() != "git fetch"@.len() || "cargo test"@[0] != "git fetch"@[0]);
            assert("cargo test"@ =~= "cargo"@ + " "@ + "test"@);
        } else {
            assert(c[k].name == "cargo check"@ && c[k].args == seq!["check"@]);
            assert("cargo check"@.len() != "git fetch"@.len() || "cargo check"@[0] != "git fetch"@[0]);
            assert("cargo check"@ =~= "cargo"@ + " "@ + "check"@);
        }
    } else if k < c.len() + d.len() {
        let o = k - c.len();
        assert(t[k] == d[o]);
        assert(d[o].category == "docker"@);
        assert("docker"@.len() != "package"@.len());
        if o == 0 {
            assert(d[o].name == "docker compose up -d"@);
            assert("docker compose up -d"@[0] != "git fetch"@[0]);
            lemma_join_two("compose"@, "up"@);
            let w = seq!["compose"@, "up"@, "-d"@];
            assert(w.drop_last() =~= seq!["compose"@, "up"@]);
            assert("docker compose up -d"@ =~= "docker"@ + " "@ + ("compose"@ + " "@ + "up"@ + " "@ + "-d"@));
        } else {
            assert(d[o].name == "docker compose down"@);
            assert("docker compose down"@[0] != "git fetch"@[0]);
            lemma_join_two("compose"@, "down"@);
            assert("docker compose down"@ =~= "docker"@ + " "@ + ("compose"@ + " "@ + "down"@));
        }
    } else {
        let o = k - c.len() - d.len();
        assert(t[k] == g[o]);
        assert(g[o].category == "git"@);
        assert("git"@.len() != "package"@.len());
        if o == 0 {
            assert("git pull"@.len() != "git fetch"@.len());
            assert("git pull"@ =~= "git"@ + " "@ + "pull"@);
        }
    }
}

/// Law: every action's name spells out what it runs: an npm action is named
/// `npm` followed by its arguments (`npm run <script>`); a cargo, docker or
/// git action is named by its command followed by its arguments (`cargo test`
/// runs `cargo` with `test`), except `git fetch`, which runs
/// `git fetch --all`.
pub proof fn law_names_spell_commands(m: RepoMarkers)
    ensures
        forall|i: int| 0 <= i < spec_repo_scripts(m).len() ==>
            name_spells_command(#[trigger] spec_repo_scripts(m)[i], m.windows),
{
    if m.exists {
        reveal_strlit("npm run ");
        reveal_strlit("npm ");
        reveal_strlit("run");
        reveal_strlit(" ");
        let sv = npm_scripts_of(m.npm_scripts);
        let npm = npm_actions(sv, m.windows);
        let t = fixed_actions(m);
        let r = spec_repo_scripts(m);
        assert(r =~= npm + t);
        assert forall|i: int| 0 <= i < r.len() implies name_spells_command(#[trigger] r[i], m.windows) by {
            if i < npm.len() {
                assert(r[i] == npm[i]);
                let x = sv[i].0;
                lemma_join_two("run"@, x);
                assert("npm run "@ + x =~= "npm "@ + ("run"@ + " "@ + x));
            } else {
                assert(r[i] == t[i - npm.len()]);
                lemma_fixed_spelled(m, i - npm.len());
            }
        }
    }
}

fn strings1(a: &str) -> (r: Vec<String>)
    ensures
        r.deep_view() == seq![a@],
{
    let mut r: Vec<String> = Vec::new();
    r.push(string_of(a));
    assert(r.deep_view() =~= seq![a@]);
    r
}

fn strings2(a: &str, b: &str) -> (r: Vec<String>)
    ensures
        r.deep_view() == seq![a@, b@],
{
    let mut r: Vec<String> = Vec::new();
    r.push(string_of(a));
    r.push(string_of(b));
    assert(r.deep_view() =~= seq![a@, b@]);
    r
}

fn strings3(a: &str, b: &str, c: &str) -> (r: Vec<String>)
    ensures
        r.deep_view() == seq![a@, b@, c@],
{
    let mut r: Vec<String> = Vec::new();
    r.push(string_of(a));
    r.push(string_of(b));
    r.push(string_of(c));
    assert(r.deep_view() =~= seq![a@, b@, c@]);
    r
}

fn action(name: &str, command: &str, args: Vec<String>, category: &str, description: &str) -> (r: ScriptAction)
    ensures
        r@ == act(name@, command@, args.deep_view(), category@, description@),
{
    ScriptAction {
        name: string_of(name),
        command: string_of(command),
        args,
        category: string_of(category),
        description: string_of(description),
    }
}

fn push_action(out: &mut Vec<ScriptAction>, a: ScriptAction)
    ensures
        final(out)@.map_values(|x: ScriptAction| x@) == old(out)@.map_values(|x: ScriptAction| x@).push(a@),
{
    out.push(a);
    assert(out@.map_values(|x: ScriptAction| x@) =~= old(out)@.map_values(|x: ScriptAction| x@).push(a@));
}

/// The quick actions available for a repository.
#[verifier::rlimit(50)]
#[verifier::spinoff_prover]
pub fn get_repo_scripts(markers: &RepoMarkers) -> (r: Vec<ScriptAction>)
    requires
        keys_ascending(npm_scripts_of(markers.npm_scripts)),
    ensures
        r@.map_values(|a: ScriptAction| a@) == spec_repo_scripts(*markers),
        forall|i: int, j: int| 0 <= i < j < r@.len() ==> (#[trigger] r@[i]).name != (#[trigger] r@[j]).name,
{
    let empty: Vec<(String, String)> = Vec::new();
    let scripts: &Vec<(String, String)> = match &markers.npm_scripts {
        Some(v) => v,
        None => &empty,
    };
    assert(empty.deep_view() =~= Seq::<(Seq<char>, Seq<char>)>::empty());
    let mut actions: Vec<ScriptAction> = Vec::new();
    if !markers.exists {
        assert(actions@.map_values(|a: ScriptAction| a@) =~= Seq::<ScriptActionView>::empty());
        return actions;
    }
    let ghost sv = npm_scripts_of(markers.npm_scripts);
    assert(scripts.deep_view() == sv);
    let mut i: usize = 0;
    while i < scripts.len()
        invariant
            i <= scripts.len(),
            sv == scripts.deep_view(),
            actions@.map_values(|a: ScriptAction| a@) == npm_actions(sv.take(i as int), markers.windows),
        decreases scripts.len() - i,
    {
        let (script_name, script_cmd) = (&scripts[i].0, &scripts[i].1);
        let mut name = string_of("npm run ");
        push_str(&mut name, script_name.as_str());
        let command = if markers.windows { string_of("npm.cmd") } else { string_of("npm") };
        let a = ScriptAction {
            name,
            command,
            args: strings2("run", script_name.as_str()),
            category: string_of("package"),
            description: script_cmd.clone(),
        };
        assert(a@ == npm_action(sv[i as int].0, sv[i as int].1, markers.windows));
        push_action(&mut actions, a);
        assert(npm_actions(sv.take(i + 1), markers.windows) =~= npm_actions(sv.take(i as int), markers.windows).push(
            npm_action(sv[i as int].0, sv[i as int].1, markers.windows)));
        i = i + 1;
    }
    assert(sv.take(scripts.len() as int) =~= sv);
    let ghost npm = actions@.map_values(|a: ScriptAction| a@);
    if markers.cargo_toml {
        push_action(&mut actions, action("cargo run", "cargo", strings1("run"), "rust", "Build and run Rust project"));
        push_action(&mut actions, action("cargo test", "cargo", strings1("test"), "rust", "Run Rust test suite"));
        push_action(&mut actions, action("cargo check", "cargo", strings1("check"), "rust", "Fast compilation check"));
    }
    let ghost with_cargo = actions@.map_values(|a: ScriptAction| a@);
    assert(with_cargo =~= npm + (if markers.cargo_toml { cargo_actions() } else { Seq::empty() }));
    if markers.compose_file {
        push_action(&mut actions, action("docker compose up -d", "docker", strings3("compose", "up", "-d"), "docker", "Start containers in background"));
        push_action(&mut actions, action("docker compose down", "docker", strings2("compose", "down"), "docker", "Stop and remove containers"));
    }
    let ghost with_docker = actions@.map_values(|a: ScriptAction| a@);
    assert(with_docker =~= with_cargo + (if markers.compose_file { docker_actions() } else { Seq::empty() }));
    if markers.git_dir {
        push_action(&mut actions, action("git pull", "git", strings1("pull"), "git", "Fetch and merge remote changes"));
        push_action(&mut actions, action("git fetch", "git", strings2("fetch", "--all"), "git", "Fetch remote refs and branches"));
    }
    assert(actions@.map_values(|a: ScriptAction| a@) =~= with_docker + (if markers.git_dir { git_actions() } else { Seq::empty() }));
    proof {
        law_action_names_distinct(*markers);
        let v = actions@.map_values(|a: ScriptAction| a@);
        assert(v == spec_repo_scripts(*markers));
        assert forall|i: int, j: int| 0 <= i < j < actions@.len() implies
            (#[trigger] actions@[i]).name != (#[trigger] actions@[j]).name by {
            assert(v[i].name == actions@[i].name@ && v[j].name == actions@[j].name@);
        }
    }
    actions
}

// ---------------------------------------------------------------------------
// Running a script
// ---------------------------------------------------------------------------

/// The report of a finished run: its exit status, then its standard output
/// and standard error under headings.
pub open spec fn spec_script_report(status: Seq<char>, stdout: Seq<char>, stderr: Seq<char>) -> Seq<char> {
    "Exit Status: "@ + status + "\n\n--- STDOUT ---\n"@ + stdout + "\n--- STDERR ---\n"@ + stderr
}

/// The outcome of a finished run: the report, as success when the command
/// exited successfully and as failure otherwise.
pub fn script_outcome(status: &str, success: bool, stdout: &str, stderr: &str) -> (r: Result<String, String>)
    ensures
        match r {
            Ok(s) => success && s@ == spec_script_report(status@, stdout@, stderr@),
            Err(s) => !success && s@ == spec_script_report(status@, stdout@, stderr@),
        },
{
    let mut s = string_of("Exit Status: ");
    push_str(&mut s, status);
    push_str(&mut s, "\n\n--- STDOUT ---\n");
    push_str(&mut s, stdout);
    push_str(&mut s, "\n--- STDERR ---\n");
    push_str(&mut s, stderr);
    if success {
        Ok(s)
    } else {
        Err(s)
    }
}

/// The error for a repository folder that does not exist.
pub fn missing_repo_error(repo_path: &str) -> (r: String)
    ensures
        r@ == "Repository path '"@ + repo_path@ + "' does not exist"@,
{
    let mut s = string_of("Repository path '");
    push_str(&mut s, repo_path);
    push_str(&mut s, "' does not exist");
    s
}

} // verus!
