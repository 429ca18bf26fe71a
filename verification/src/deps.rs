//! Dependency versions across repositories: a curated set of packages read
//! from each `package.json`, and the dependencies that `Cargo.toml`,
//! `pyproject.toml`, `requirements.txt` and `go.mod` declare.
use vstd::prelude::*;
use crate::manifests::{manifest_dependencies, manifest_deps, ManifestKind};
use crate::json::{json_object_members, json_object_members_of};
use crate::text::{chars_eq, from_chars, slice_vec, string_of, to_chars};

verus! {

/// Dependency versions of one repository, from one of its manifests.
pub struct RepoDeps {
    pub repo: String,
    pub path: String,
    /// The manifest's ecosystem: "npm" (`package.json`), "cargo" (`Cargo.toml`),
    /// "poetry" (`pyproject.toml`), "pip" (`requirements.txt`) or "go" (`go.mod`).
    pub ecosystem: String,
    /// Package name and version, each package once. For npm, versions are
    /// without leading `^`, `~`, `=`.
    pub deps: Vec<(String, String)>,
}

pub struct RepoDepsView {
    pub repo: Seq<char>,
    pub path: Seq<char>,
    pub ecosystem: Seq<char>,
    pub deps: Seq<(Seq<char>, Seq<char>)>,
}

impl View for RepoDeps {
    type V = RepoDepsView;

    open spec fn view(&self) -> RepoDepsView {
        RepoDepsView { repo: self.repo@, path: self.path@, ecosystem: self.ecosystem@, deps: self.deps.deep_view() }
    }
}

/// The packages the dashboard reports on.
pub open spec fn interesting_deps() -> Seq<Seq<char>> {
    seq![
        "next"@, "react"@, "react-dom"@, "vue"@, "vite"@, "typescript"@, "tailwindcss"@,
        "framer-motion"@, "@supabase/supabase-js"@, "@supabase/ssr"@, "prisma"@, "@prisma/client"@,
        "express"@, "fastify"@, "astro"@, "nuxt"@, "svelte"@, "remix"@, "trpc"@, "@trpc/server"@,
        "zod"@, "axios"@, "drizzle-orm"@,
    ]
}

/// Whether `pkg` is one of the reported packages.
pub fn is_interesting(pkg: &str) -> (r: bool)
    ensures
        r == interesting_deps().contains(pkg@),
{
    let list: [&str; 23] = [
        "next", "react", "react-dom", "vue", "vite", "typescript", "tailwindcss",
        "framer-motion", "@supabase/supabase-js", "@supabase/ssr", "prisma", "@prisma/client",
        "express", "fastify", "astro", "nuxt", "svelte", "remix", "trpc", "@trpc/server",
        "zod", "axios", "drizzle-orm",
    ];
    let ghost lv = list@.map_values(|e: &str| e@);
    assert(lv =~= interesting_deps());
    let p = to_chars(pkg);
    let mut i: usize = 0;
    while i < 23
        invariant
            i <= 23,
            lv == list@.map_values(|e: &str| e@),
            lv == interesting_deps(),
            p@ == pkg@,
            forall|j: int| 0 <= j < i ==> lv[j] != pkg@,
        decreases 23 - i,
    {
        let e = to_chars(list[i]);
        if chars_eq(e.as_slice(), p.as_slice()) {
            assert(lv[i as int] == pkg@);
            return true;
        }
        i = i + 1;
    }
    false
}

/// A range mark that may lead a declared version.
pub open spec fn is_range_mark(c: char) -> bool {
    c == '^' || c == '~' || c == '='
}

/// `s` without its leading range marks (`^`, `~`, `=`, in any order and number).
pub open spec fn strip_range_marks(s: Seq<char>) -> Seq<char>
    decreases s.len(),
{
    if s.len() > 0 && is_range_mark(s[0]) {
        strip_range_marks(s.skip(1))
    } else {
        s
    }
}

/// A version as reported: the declared string (or `?` when it is no string)
/// without its leading range marks.
pub open spec fn clean_version(v: Option<Seq<char>>) -> Seq<char> {
    let s = match v {
        Some(s) => s,
        None => "?"@,
    };
    strip_range_marks(s)
}

proof fn lemma_strip_range_marks(s: Seq<char>, k: int)
    requires
        0 <= k <= s.len(),
        forall|j: int| 0 <= j < k ==> is_range_mark(s[j]),
        k < s.len() ==> !is_range_mark(s[k]),
    ensures
        strip_range_marks(s) == s.skip(k),
    decreases k,
{
    if k > 0 {
        lemma_strip_range_marks(s.skip(1), k - 1);
        assert(s.skip(1).skip(k - 1) =~= s.skip(k));
    } else {
        assert(s.skip(0) =~= s);
    }
}

proof fn lemma_add_members_unmarked(d: Seq<(Seq<char>, Seq<char>)>, m: Seq<(Seq<char>, Option<Seq<char>>)>)
    requires
        forall|i: int| 0 <= i < d.len() ==> ((#[trigger] d[i]).1.len() > 0 ==> !is_range_mark(d[i].1[0])),
    ensures
        forall|i: int| 0 <= i < add_members(d, m).len() ==>
            ((#[trigger] add_members(d, m)[i]).1.len() > 0 ==> !is_range_mark(add_members(d, m)[i].1[0])),
    decreases m.len(),
{
    if m.len() > 0 {
        lemma_add_members_unmarked(d, m.drop_last());
        let before = add_members(d, m.drop_last());
        let e = m.last();
        law_version_unmarked(e.1);
        if interesting_deps().contains(e.0) {
            let after = add_members(d, m);
            if has_key(before, e.0) {
                let c = choose|i: int| 0 <= i < before.len() && before[i].0 == e.0;
                assert forall|i: int| 0 <= i < after.len() implies
                    ((#[trigger] after[i]).1.len() > 0 ==> !is_range_mark(after[i].1[0])) by {
                    if i != c {
                        assert(after[i] == before[i]);
                    }
                }
            } else {
                assert forall|i: int| 0 <= i < after.len() implies
                    ((#[trigger] after[i]).1.len() > 0 ==> !is_range_mark(after[i].1[0])) by {
                    if i < before.len() {
                        assert(after[i] == before[i]);
                    }
                }
            }
        }
    }
}

/// Law: a reported version never starts with a range mark.
pub proof fn law_version_unmarked(v: Option<Seq<char>>)
    ensures
        clean_version(v).len() > 0 ==> !is_range_mark(clean_version(v)[0]),
{
    let s = match v {
        Some(s) => s,
        None => "?"@,
    };
    lemma_unmarked(s);
}

proof fn lemma_unmarked(s: Seq<char>)
    ensures
        strip_range_marks(s).len() > 0 ==> !is_range_mark(strip_range_marks(s)[0]),
    decreases s.len(),
{
    if s.len() > 0 && is_range_mark(s[0]) {
        lemma_unmarked(s.skip(1));
    }
}

/// Whether `k` is a package of `d`.
pub open spec fn has_key(d: Seq<(Seq<char>, Seq<char>)>, k: Seq<char>) -> bool {
    exists|i: int| 0 <= i < d.len() && d[i].0 == k
}

/// `d` with `k` set to `v`: in place when present, appended otherwise.
pub open spec fn upsert(d: Seq<(Seq<char>, Seq<char>)>, k: Seq<char>, v: Seq<char>) -> Seq<(Seq<char>, Seq<char>)> {
    if has_key(d, k) {
        d.update(choose|i: int| 0 <= i < d.len() && d[i].0 == k, (k, v))
    } else {
        d.push((k, v))
    }
}

impl RepoDepsView {
    /// A repository's dependency list: not empty, each package once, and for
    /// npm only packages the dashboard reports on, with no version starting
    /// with a range mark.
    pub open spec fn well_formed(self) -> bool {
        &&& self.deps.len() > 0
        &&& distinct_keys(self.deps)
        &&& self.ecosystem == "npm"@ ==> forall|i: int| 0 <= i < self.deps.len() ==>
            interesting_deps().contains(#[trigger] self.deps[i].0)
                && (self.deps[i].1.len() > 0 ==> !is_range_mark(self.deps[i].1[0]))
    }
}

/// Whether no package occurs twice.
pub open spec fn distinct_keys(d: Seq<(Seq<char>, Seq<char>)>) -> bool {
    forall|i: int, j: int| 0 <= i < j < d.len() ==> d[i].0 != d[j].0
}

/// Folding the members of a dependency section into `d`: each reported
/// package set to its cleaned version.
pub open spec fn add_members(d: Seq<(Seq<char>, Seq<char>)>, m: Seq<(Seq<char>, Option<Seq<char>>)>) -> Seq<(Seq<char>, Seq<char>)>
    decreases m.len(),
{
    if m.len() == 0 {
        d
    } else {
        let before = add_members(d, m.drop_last());
        let e = m.last();
        if interesting_deps().contains(e.0) {
            upsert(before, e.0, clean_version(e.1))
        } else {
            before
        }
    }
}

/// The members of a dependency section as read (`None` when the text is no
/// JSON, `Some(None)` when there is no such object): none when there is no
/// such object.
pub open spec fn section_members(
    m: Option<Option<Seq<(Seq<char>, Option<Seq<char>>)>>>,
) -> Seq<(Seq<char>, Option<Seq<char>>)> {
    match m {
        Some(Some(s)) => s,
        _ => Seq::empty(),
    }
}

/// The dependency versions that the `dependencies` and `devDependencies`
/// sections of a `package.json` give, as read: the reported packages of the
/// first, then of the second (a later version replacing an earlier one).
/// `None` when the text is no JSON or no reported package occurs.
pub open spec fn deps_from(
    repo: Seq<char>,
    path: Seq<char>,
    deps: Option<Option<Seq<(Seq<char>, Option<Seq<char>>)>>>,
    dev: Option<Option<Seq<(Seq<char>, Option<Seq<char>>)>>>,
) -> Option<RepoDepsView> {
    if deps is None {
        None
    } else {
        let d = add_members(add_members(Seq::empty(), section_members(deps)), section_members(dev));
        if d.len() == 0 {
            None
        } else {
            Some(RepoDepsView { repo, path, ecosystem: "npm"@, deps: d })
        }
    }
}

/// The dependency versions a `package.json` text gives.
pub open spec fn spec_repo_deps(repo: Seq<char>, path: Seq<char>, text: Seq<char>) -> Option<RepoDepsView> {
    deps_from(repo, path, json_object_members(text, "dependencies"@), json_object_members(text, "devDependencies"@))
}

/// A dependency section as read, by its view.
pub open spec fn section_view(
    m: Option<Option<Vec<(String, Option<String>)>>>,
) -> Option<Option<Seq<(Seq<char>, Option<Seq<char>>)>>> {
    match m {
        Some(Some(v)) => Some(Some(v.deep_view())),
        Some(None) => Some(None),
        None => None,
    }
}

fn clean_version_exec(v: &Option<String>) -> (r: String)
    ensures
        r@ == clean_version(match v {
            Some(s) => Some(s@),
            None => None,
        }),
{
    let s = match v {
        Some(s) => to_chars(s.as_str()),
        None => to_chars("?"),
    };
    let mut k: usize = 0;
    while k < s.len() && (s[k] == '^' || s[k] == '~' || s[k] == '=')
        invariant
            k <= s.len(),
            forall|j: int| 0 <= j < k ==> is_range_mark(s@[j]),
        decreases s.len() - k,
    {
        k = k + 1;
    }
    proof { lemma_strip_range_marks(s@, k as int); }
    let c = slice_vec(&s, k, s.len());
    assert(c@ =~= s@.skip(k as int));
    from_chars(c.as_slice())
}

pub(crate) fn upsert_exec(d: &mut Vec<(String, String)>, k: String, v: String)
    requires
        distinct_keys(old(d).deep_view()),
    ensures
        final(d).deep_view() == upsert(old(d).deep_view(), k@, v@),
        distinct_keys(final(d).deep_view()),
{
    let ghost dv = d.deep_view();
    let kc = to_chars(k.as_str());
    let mut i: usize = 0;
    while i < d.len()
        invariant
            i <= d.len(),
            dv == d.deep_view(),
            dv == old(d).deep_view(),
            distinct_keys(dv),
            kc@ == k@,
            forall|j: int| 0 <= j < i ==> dv[j].0 != k@,
        decreases d.len() - i,
    {
        let e = to_chars(d[i].0.as_str());
        if chars_eq(e.as_slice(), kc.as_slice()) {
            assert(dv[i as int].0 == k@);
            proof {
                let c = choose|j: int| 0 <= j < dv.len() && dv[j].0 == k@;
                assert(c == i) by {
                    if c < i {
                    } else if c > i {
                        assert(dv[i as int].0 != dv[c].0);
                    }
                }
            }
            d.set(i, (k, v));
            assert(d.deep_view() =~= dv.update(i as int, (k@, v@)));
            return;
        }
        i = i + 1;
    }
    d.push((k, v));
    assert(d.deep_view() =~= dv.push((k@, v@)));
}

fn add_members_exec(d: &mut Vec<(String, String)>, m: &Vec<(String, Option<String>)>)
    requires
        distinct_keys(old(d).deep_view()),
    ensures
        final(d).deep_view() == add_members(old(d).deep_view(), m.deep_view()),
        distinct_keys(final(d).deep_view()),
{
    let ghost d0 = d.deep_view();
    let ghost mv = m.deep_view();
    let mut i: usize = 0;
    while i < m.len()
        invariant
            i <= m.len(),
            mv == m.deep_view(),
            d.deep_view() == add_members(d0, mv.take(i as int)),
            distinct_keys(d.deep_view()),
        decreases m.len() - i,
    {
        assert(mv.take(i + 1).drop_last() =~= mv.take(i as int));
        let (pkg, ver) = (&m[i].0, &m[i].1);
        assert(mv[i as int] == (pkg@, match ver { Some(s) => Some(s@), None => None }));
        if is_interesting(pkg.as_str()) {
            let cv = clean_version_exec(ver);
            upsert_exec(d, pkg.clone(), cv);
        }
        i = i + 1;
    }
    assert(mv.take(m.len() as int) =~= mv);
}

/// The dependency versions of one repository from the `dependencies` and
/// `devDependencies` sections of its `package.json`, as read.
pub fn deps_from_sections(
    repo: &str,
    path: &str,
    deps: Option<Option<Vec<(String, Option<String>)>>>,
    dev: Option<Option<Vec<(String, Option<String>)>>>,
) -> (r: Option<RepoDeps>)
    ensures
        match deps_from(repo@, path@, section_view(deps), section_view(dev)) {
            Some(v) => r matches Some(x) && x@ == v,
            None => r is None,
        },
        r matches Some(x) ==> x@.well_formed(),
{
    proof {
        let e = Seq::<(Seq<char>, Seq<char>)>::empty();
        let first = section_members(section_view(deps));
        law_deps_distinct_and_reported(e, first);
        law_deps_distinct_and_reported(add_members(e, first), section_members(section_view(dev)));
        lemma_add_members_unmarked(e, first);
        lemma_add_members_unmarked(add_members(e, first), section_members(section_view(dev)));
        reveal_strlit("npm");
    }
    let first = match deps {
        None => {
            return None;
        },
        Some(f) => f,
    };
    let mut out: Vec<(String, String)> = Vec::new();
    assert(out.deep_view() =~= Seq::<(Seq<char>, Seq<char>)>::empty());
    match &first {
        Some(m) => add_members_exec(&mut out, m),
        None => {},
    }
    assert(out.deep_view() == add_members(Seq::empty(), section_members(section_view(deps))));
    match &dev {
        Some(Some(m)) => add_members_exec(&mut out, m),
        _ => {},
    }
    if out.len() == 0 {
        return None;
    }
    Some(RepoDeps { repo: string_of(repo), path: string_of(path), ecosystem: string_of("npm"), deps: out })
}

/// The dependency versions of one repository from its `package.json` text.
pub fn repo_deps(repo: &str, path: &str, package_json: &str) -> (r: Option<RepoDeps>)
    ensures
        match spec_repo_deps(repo@, path@, package_json@) {
            Some(v) => r matches Some(x) && x@ == v,
            None => r is None,
        },
        r matches Some(x) ==> x@.well_formed(),
{
    let deps = json_object_members_of(package_json, "dependencies");
    let dev = json_object_members_of(package_json, "devDependencies");
    deps_from_sections(repo, path, deps, dev)
}

/// Law: a repository's dependency list names each package once, and only
/// packages the dashboard reports on.
pub proof fn law_deps_distinct_and_reported(d: Seq<(Seq<char>, Seq<char>)>, m: Seq<(Seq<char>, Option<Seq<char>>)>)
    requires
        distinct_keys(d),
        forall|i: int| 0 <= i < d.len() ==> interesting_deps().contains(#[trigger] d[i].0),
    ensures
        distinct_keys(add_members(d, m)),
        forall|i: int| 0 <= i < add_members(d, m).len() ==> interesting_deps().contains(#[trigger] add_members(d, m)[i].0),
    decreases m.len(),
{
    if m.len() > 0 {
        law_deps_distinct_and_reported(d, m.drop_last());
        let before = add_members(d, m.drop_last());
        let e = m.last();
        if interesting_deps().contains(e.0) {
            if has_key(before, e.0) {
                let c = choose|i: int| 0 <= i < before.len() && before[i].0 == e.0;
                let after = before.update(c, (e.0, clean_version(e.1)));
                assert forall|i: int, j: int| 0 <= i < j < after.len() implies after[i].0 != after[j].0 by {
                    assert(after[i].0 == before[i].0 && after[j].0 == before[j].0);
                }
                assert forall|i: int| 0 <= i < after.len() implies interesting_deps().contains(#[trigger] after[i].0) by {
                    assert(after[i].0 == before[i].0);
                }
            } else {
                let after = before.push((e.0, clean_version(e.1)));
                assert forall|i: int, j: int| 0 <= i < j < after.len() implies after[i].0 != after[j].0 by {
                    if j == before.len() {
                        assert(after[i] == before[i]);
                    } else {
                        assert(after[i] == before[i] && after[j] == before[j]);
                    }
                }
                assert forall|i: int| 0 <= i < after.len() implies interesting_deps().contains(#[trigger] after[i].0) by {
                    if i < before.len() {
                        assert(after[i] == before[i]);
                    }
                }
            }
        }
    }
}

proof fn lemma_interesting_names(n: Seq<char>)
    ensures
        interesting_deps().contains(n) <==> (
            n == "next"@ || n == "react"@ || n == "react-dom"@ || n == "vue"@ || n == "vite"@
            || n == "typescript"@ || n == "tailwindcss"@ || n == "framer-motion"@
            || n == "@supabase/supabase-js"@ || n == "@supabase/ssr"@ || n == "prisma"@
            || n == "@prisma/client"@ || n == "express"@ || n == "fastify"@ || n == "astro"@
            || n == "nuxt"@ || n == "svelte"@ || n == "remix"@ || n == "trpc"@
            || n == "@trpc/server"@ || n == "zod"@ || n == "axios"@ || n == "drizzle-orm"@
        ),
{
    let l = interesting_deps();
    assert(l[0] == "next"@ && l[1] == "react"@ && l[2] == "react-dom"@ && l[3] == "vue"@);
    assert(l[4] == "vite"@ && l[5] == "typescript"@ && l[6] == "tailwindcss"@ && l[7] == "framer-motion"@);
    assert(l[8] == "@supabase/supabase-js"@ && l[9] == "@supabase/ssr"@ && l[10] == "prisma"@);
    assert(l[11] == "@prisma/client"@ && l[12] == "express"@ && l[13] == "fastify"@ && l[14] == "astro"@);
    assert(l[15] == "nuxt"@ && l[16] == "svelte"@ && l[17] == "remix"@ && l[18] == "trpc"@);
    assert(l[19] == "@trpc/server"@ && l[20] == "zod"@ && l[21] == "axios"@ && l[22] == "drizzle-orm"@);
    if l.contains(n) {
        let i = choose|i: int| 0 <= i < l.len() && l[i] == n;
        assert(l.len() == 23);
    }
}

/// Law: a `package.json` whose only dependency is `n` gets a report exactly
/// when `n` is one of next, react, react-dom, vue, vite, typescript,
/// tailwindcss, framer-motion, @supabase/supabase-js, @supabase/ssr, prisma,
/// @prisma/client, express, fastify, astro, nuxt, svelte, remix, trpc,
/// @trpc/server, zod, axios, drizzle-orm; the report lists `n` alone, with its
/// version without leading range marks.
pub proof fn law_reported_packages(repo: Seq<char>, path: Seq<char>, n: Seq<char>, v: Option<Seq<char>>)
    ensures
        deps_from(repo, path, Some(Some(seq![(n, v)])), Some(None)) is Some <==> (
            n == "next"@ || n == "react"@ || n == "react-dom"@ || n == "vue"@ || n == "vite"@
            || n == "typescript"@ || n == "tailwindcss"@ || n == "framer-motion"@
            || n == "@supabase/supabase-js"@ || n == "@supabase/ssr"@ || n == "prisma"@
            || n == "@prisma/client"@ || n == "express"@ || n == "fastify"@ || n == "astro"@
            || n == "nuxt"@ || n == "svelte"@ || n == "remix"@ || n == "trpc"@
            || n == "@trpc/server"@ || n == "zod"@ || n == "axios"@ || n == "drizzle-orm"@
        ),
        deps_from(repo, path, Some(Some(seq![(n, v)])), Some(None)) matches Some(d) ==> d.deps == seq![(
            n,
            strip_range_marks(match v {
                Some(x) => x,
                None => "?"@,
            }),
        )],
{
    lemma_interesting_names(n);
    let m = seq![(n, v)];
    let e = Seq::<(Seq<char>, Seq<char>)>::empty();
    assert(m.drop_last() =~= Seq::<(Seq<char>, Option<Seq<char>>)>::empty());
    assert(add_members(e, m.drop_last()) == e);
    if interesting_deps().contains(n) {
        assert(!has_key(e, n));
        assert(add_members(e, m) == e.push((n, clean_version(v))));
        assert(e.push((n, clean_version(v))) =~= seq![(n, clean_version(v))]);
    }
    let d = add_members(e, m);
    assert(add_members(d, Seq::empty()) == d);
}

/// A repository and the texts of its manifests (`None` when there is no
/// readable one).
pub struct PackageSource {
    pub name: String,
    pub path: String,
    pub package_json: Option<String>,
    pub cargo_toml: Option<String>,
    pub pyproject_toml: Option<String>,
    pub requirements_txt: Option<String>,
    pub go_mod: Option<String>,
}

/// The report of one non-npm manifest: its declared dependencies, when there are some.
pub open spec fn manifest_report(
    repo: Seq<char>,
    path: Seq<char>,
    ecosystem: Seq<char>,
    kind: ManifestKind,
    text: Option<String>,
) -> Seq<RepoDepsView> {
    match text {
        Some(t) => if manifest_deps(kind, t@).len() > 0 {
            seq![RepoDepsView { repo, path, ecosystem, deps: manifest_deps(kind, t@) }]
        } else {
            Seq::empty()
        },
        None => Seq::empty(),
    }
}

/// The reports of one repository: `package.json`, then `Cargo.toml`,
/// `pyproject.toml`, `requirements.txt` and `go.mod`, each when it gives some.
pub open spec fn source_reports(p: PackageSource) -> Seq<RepoDepsView> {
    let npm = match p.package_json {
        Some(t) => match spec_repo_deps(p.name@, p.path@, t@) {
            Some(d) => seq![d],
            None => Seq::empty(),
        },
        None => Seq::empty(),
    };
    npm + manifest_report(p.name@, p.path@, "cargo"@, ManifestKind::Cargo, p.cargo_toml)
        + manifest_report(p.name@, p.path@, "poetry"@, ManifestKind::Poetry, p.pyproject_toml)
        + manifest_report(p.name@, p.path@, "pip"@, ManifestKind::Requirements, p.requirements_txt)
        + manifest_report(p.name@, p.path@, "go"@, ManifestKind::GoMod, p.go_mod)
}

pub open spec fn deps_of(ps: Seq<PackageSource>) -> Seq<RepoDepsView>
    decreases ps.len(),
{
    if ps.len() == 0 {
        Seq::empty()
    } else {
        deps_of(ps.drop_last()) + source_reports(ps.last())
    }
}

fn push_manifest_report(
    out: &mut Vec<RepoDeps>,
    repo: &String,
    path: &String,
    ecosystem: &str,
    kind: &ManifestKind,
    text: &Option<String>,
)
    requires
        ecosystem@ != "npm"@,
        forall|k: int| 0 <= k < old(out)@.len() ==> (#[trigger] old(out)@[k])@.well_formed(),
    ensures
        final(out)@.map_values(|d: RepoDeps| d@) == old(out)@.map_values(|d: RepoDeps| d@)
            + manifest_report(repo@, path@, ecosystem@, *kind, *text),
        forall|k: int| 0 <= k < final(out)@.len() ==> (#[trigger] final(out)@[k])@.well_formed(),
{
    let ghost before = out@.map_values(|d: RepoDeps| d@);
    match text {
        Some(t) => {
            let deps = manifest_dependencies(kind, t.as_str());
            if deps.len() > 0 {
                let d = RepoDeps { repo: repo.clone(), path: path.clone(), ecosystem: string_of(ecosystem), deps };
                out.push(d);
                assert(out@.map_values(|d: RepoDeps| d@) =~= before + manifest_report(repo@, path@, ecosystem@, *kind, *text));
            } else {
                assert(before + manifest_report(repo@, path@, ecosystem@, *kind, *text) =~= before);
            }
        },
        None => {
            assert(before + manifest_report(repo@, path@, ecosystem@, *kind, *text) =~= before);
        },
    }
}

proof fn lemma_ecosystems_differ()
    ensures
        "npm"@ != "cargo"@,
        "npm"@ != "poetry"@,
        "npm"@ != "pip"@,
        "npm"@ != "go"@,
{
    reveal_strlit("npm");
    reveal_strlit("cargo");
    reveal_strlit("poetry");
    reveal_strlit("pip");
    reveal_strlit("go");
    assert("npm"@[0] != "pip"@[0]);
}

fn push_source_reports(out: &mut Vec<RepoDeps>, p: &PackageSource)
    requires
        forall|k: int| 0 <= k < old(out)@.len() ==> (#[trigger] old(out)@[k])@.well_formed(),
    ensures
        final(out)@.map_values(|d: RepoDeps| d@) == old(out)@.map_values(|d: RepoDeps| d@) + source_reports(*p),
        forall|k: int| 0 <= k < final(out)@.len() ==> (#[trigger] final(out)@[k])@.well_formed(),
{
    proof { lemma_ecosystems_differ(); }
    let ghost start = out@.map_values(|d: RepoDeps| d@);
    match &p.package_json {
        Some(t) => match repo_deps(p.name.as_str(), p.path.as_str(), t.as_str()) {
            Some(d) => {
                out.push(d);
                assert(out@.map_values(|d: RepoDeps| d@) =~= start.push(d@));
            },
            None => {},
        },
        None => {},
    }
    let ghost npm = out@.map_values(|d: RepoDeps| d@);
    assert(npm =~= start + (match p.package_json {
        Some(t) => match spec_repo_deps(p.name@, p.path@, t@) {
            Some(d) => seq![d],
            None => Seq::empty(),
        },
        None => Seq::empty(),
    }));
    push_manifest_report(out, &p.name, &p.path, "cargo", &ManifestKind::Cargo, &p.cargo_toml);
    push_manifest_report(out, &p.name, &p.path, "poetry", &ManifestKind::Poetry, &p.pyproject_toml);
    push_manifest_report(out, &p.name, &p.path, "pip", &ManifestKind::Requirements, &p.requirements_txt);
    push_manifest_report(out, &p.name, &p.path, "go", &ManifestKind::GoMod, &p.go_mod);
    assert(out@.map_values(|d: RepoDeps| d@) =~= start + source_reports(*p));
}

/// The dependency versions of every repository, from each manifest that gives some.
pub fn get_dep_versions(repos: &Vec<PackageSource>) -> (r: Vec<RepoDeps>)
    ensures
        r@.map_values(|d: RepoDeps| d@) == deps_of(repos@),
        forall|i: int| 0 <= i < r@.len() ==> (#[trigger] r@[i])@.well_formed(),
{
    let mut out: Vec<RepoDeps> = Vec::new();
    let mut i: usize = 0;
    while i < repos.len()
        invariant
            i <= repos.len(),
            out@.map_values(|d: RepoDeps| d@) == deps_of(repos@.take(i as int)),
            forall|k: int| 0 <= k < out@.len() ==> (#[trigger] out@[k])@.well_formed(),
        decreases repos.len() - i,
    {
        assert(repos@.take(i + 1).drop_last() =~= repos@.take(i as int));
        push_source_reports(&mut out, &repos[i]);
        i = i + 1;
    }
    assert(repos@.take(repos.len() as int) =~= repos@);
    out
}

} // verus!
