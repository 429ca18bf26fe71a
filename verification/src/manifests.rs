//! Dependencies declared by Rust, Python and Go manifests: `Cargo.toml`,
//! `pyproject.toml` (Poetry tables), `requirements.txt` and `go.mod`, read
//! line by line.
use vstd::prelude::*;
use crate::deps::{distinct_keys, upsert, upsert_exec};
use crate::ports::{split_words, words};
use crate::text::{
    before_char, before_char_chars, chars_eq, has_prefix_at, lines, slice_vec, split_lines, string_of,
    from_chars, to_chars, trim, trim_chars,
};

verus! {

/// The kind of a dependency manifest.
pub enum ManifestKind {
    /// `Cargo.toml`: the `[dependencies]` and `[dev-dependencies]` tables.
    Cargo,
    /// `pyproject.toml`: the `[tool.poetry.dependencies]` and
    /// `[tool.poetry.dev-dependencies]` tables, without `python` itself.
    Poetry,
    /// `requirements.txt`: one requirement per line.
    Requirements,
    /// `go.mod`: `require` lines and `require ( ... )` blocks.
    GoMod,
}

/// What follows the first occurrence of `pat` in `s`.
pub open spec fn after_seq(s: Seq<char>, pat: Seq<char>) -> Option<Seq<char>>
    decreases s.len(),
{
    if s.len() < pat.len() {
        None
    } else if s.take(pat.len() as int) == pat {
        Some(s.skip(pat.len() as int))
    } else if s.len() == 0 {
        None
    } else {
        after_seq(s.skip(1), pat)
    }
}

/// The part of `s` before its first character among `stops`.
pub open spec fn before_any(s: Seq<char>, stops: Seq<char>) -> Seq<char>
    decreases s.len(),
{
    if s.len() == 0 || stops.contains(s[0]) {
        Seq::empty()
    } else {
        seq![s[0]] + before_any(s.skip(1), stops)
    }
}

/// The version of a TOML dependency value: a quoted string's content, or the
/// quoted string after `version` in an inline table; `*` when there is none.
pub open spec fn toml_version(v: Seq<char>) -> Seq<char> {
    if v.len() > 0 && v[0] == '"' {
        before_char(v.skip(1), '"')
    } else {
        match after_seq(v, "version"@) {
            Some(r) => match after_seq(r, "\""@) {
                Some(x) => before_char(x, '"'),
                None => "*"@,
            },
            None => "*"@,
        }
    }
}

/// Whether a TOML table header opens a dependency table of the manifest.
pub open spec fn dependency_table(kind: ManifestKind, t: Seq<char>) -> bool {
    match kind {
        ManifestKind::Cargo => t == "[dependencies]"@ || t == "[dev-dependencies]"@,
        _ => t == "[tool.poetry.dependencies]"@ || t == "[tool.poetry.dev-dependencies]"@,
    }
}

/// One line of a TOML manifest: a table header sets whether the lines that
/// follow declare dependencies; in such a table a `name = value` line (not a
/// comment) declares `name` at `toml_version(value)`.
pub open spec fn toml_step(kind: ManifestKind, in_deps: bool, line: Seq<char>) -> (bool, Option<(Seq<char>, Seq<char>)>) {
    let t = trim(line);
    if t.len() > 0 && t[0] == '[' {
        (dependency_table(kind, t), None)
    } else if in_deps && t.len() > 0 && t[0] != '#' {
        match after_seq(t, "="@) {
            Some(v) => {
                let name = trim(before_char(t, '='));
                if name.len() > 0 && !(kind is Poetry && name == "python"@) {
                    (true, Some((name, toml_version(trim(v)))))
                } else {
                    (true, None)
                }
            },
            None => (true, None),
        }
    } else {
        (in_deps, None)
    }
}

/// The characters that end a requirement's name.
pub open spec fn requirement_stops() -> Seq<char> {
    seq!['=', '<', '>', '!', '~', ';', '[', ' ', '@']
}

/// One line of `requirements.txt`: not blank, no comment, no option (`-r`,
/// `-e`, ...): its name up to the first version operator, marker, extra or
/// space, and the version after `==` (up to a `;` marker) or `*`.
pub open spec fn requirement_entry(line: Seq<char>) -> Option<(Seq<char>, Seq<char>)> {
    let t = trim(line);
    if t.len() == 0 || t[0] == '#' || t[0] == '-' {
        None
    } else {
        let name = trim(before_any(t, requirement_stops()));
        if name.len() == 0 {
            None
        } else {
            match after_seq(t, "=="@) {
                Some(v) => Some((name, trim(before_char(v, ';')))),
                None => Some((name, "*"@)),
            }
        }
    }
}

/// One line of `go.mod`: `require (` opens a block that `)` closes; in the
/// block a line of at least two words (not a `//` comment) requires its first
/// word at its second; outside, `require MODULE VERSION` does.
pub open spec fn go_step(in_block: bool, line: Seq<char>) -> (bool, Option<(Seq<char>, Seq<char>)>) {
    let t = trim(line);
    let ws = words(t);
    if t == "require ("@ {
        (true, None)
    } else if in_block && t == ")"@ {
        (false, None)
    } else if in_block && ws.len() >= 2 && !(t.len() >= 2 && t[0] == '/' && t[1] == '/') {
        (true, Some((ws[0], ws[1])))
    } else if !in_block && ws.len() >= 3 && ws[0] == "require"@ {
        (false, Some((ws[1], ws[2])))
    } else {
        (in_block, None)
    }
}

/// One line of a manifest: the new state and the dependency it declares.
pub open spec fn manifest_step(kind: ManifestKind, state: bool, line: Seq<char>) -> (bool, Option<(Seq<char>, Seq<char>)>) {
    match kind {
        ManifestKind::Requirements => (state, requirement_entry(line)),
        ManifestKind::GoMod => go_step(state, line),
        _ => toml_step(kind, state, line),
    }
}

/// Reading the lines of a manifest: the state after them, and the declared
/// dependencies (a later declaration of a name replacing an earlier one).
pub open spec fn manifest_scan(kind: ManifestKind, ls: Seq<Seq<char>>) -> (bool, Seq<(Seq<char>, Seq<char>)>)
    decreases ls.len(),
{
    if ls.len() == 0 {
        (false, Seq::empty())
    } else {
        let st = manifest_scan(kind, ls.drop_last());
        let step = manifest_step(kind, st.0, ls.last());
        (step.0, match step.1 {
            Some(p) => upsert(st.1, p.0, p.1),
            None => st.1,
        })
    }
}

/// Law: in `Cargo.toml` the lines after a `[dependencies]` or
/// `[dev-dependencies]` header declare dependencies, and any other table
/// header ends them; in `pyproject.toml` the same holds of
/// `[tool.poetry.dependencies]` and `[tool.poetry.dev-dependencies]`; in
/// `go.mod`, `require (` opens a block and `)` closes it. A header line
/// declares nothing.
pub proof fn law_manifest_sections(kind: ManifestKind, ls: Seq<Seq<char>>, l: Seq<char>)
    ensures
        ({
            let t = trim(l);
            let before = manifest_scan(kind, ls);
            let after = manifest_scan(kind, ls.push(l));
            &&& (kind is Cargo && t.len() > 0 && t[0] == '[') ==> after.1 == before.1
                && (after.0 <==> (t == "[dependencies]"@ || t == "[dev-dependencies]"@))
            &&& (kind is Poetry && t.len() > 0 && t[0] == '[') ==> after.1 == before.1
                && (after.0 <==> (t == "[tool.poetry.dependencies]"@ || t == "[tool.poetry.dev-dependencies]"@))
            &&& (kind is GoMod && t == "require ("@) ==> after.0 && after.1 == before.1
            &&& (kind is GoMod && before.0 && t == ")"@) ==> !after.0 && after.1 == before.1
        }),
{
    assert(ls.push(l).drop_last() =~= ls);
    reveal_strlit("require (");
    reveal_strlit(")");
    assert("require ("@ != ")"@) by {
        assert("require ("@.len() != ")"@.len());
    }
}

/// The dependencies a manifest text declares, each name once.
pub open spec fn manifest_deps(kind: ManifestKind, text: Seq<char>) -> Seq<(Seq<char>, Seq<char>)> {
    manifest_scan(kind, lines(text)).1
}

// ---------------------------------------------------------------------------
// Executable reading
// ---------------------------------------------------------------------------

fn after_seq_chars(t: &Vec<char>, pat: &Vec<char>) -> (r: Option<Vec<char>>)
    ensures
        match after_seq(t@, pat@) {
            Some(s) => r matches Some(v) && v@ == s,
            None => r is None,
        },
{
    let mut j: usize = 0;
    assert(t@.skip(0) =~= t@);
    while t.len() - j >= pat.len()
        invariant
            j <= t.len(),
            after_seq(t@, pat@) == after_seq(t@.skip(j as int), pat@),
        decreases t.len() - j,
    {
        let ghost u = t@.skip(j as int);
        assert(u.take(pat@.len() as int) =~= t@.subrange(j as int, j + pat@.len()));
        if has_prefix_at(t.as_slice(), j, pat.as_slice()) {
            let r = slice_vec(t, j + pat.len(), t.len());
            assert(r@ =~= u.skip(pat@.len() as int));
            return Some(r);
        }
        assert(pat@.len() > 0) by {
            if pat@.len() == 0 {
                assert(t@.subrange(j as int, j as int) =~= pat@);
            }
        }
        assert(u.skip(1) =~= t@.skip(j + 1));
        j = j + 1;
    }
    None
}

proof fn lemma_before_any(s: Seq<char>, stops: Seq<char>, k: int)
    requires
        0 <= k <= s.len(),
        forall|j: int| 0 <= j < k ==> !stops.contains(#[trigger] s[j]),
        k < s.len() ==> stops.contains(s[k]),
    ensures
        before_any(s, stops) == s.take(k),
    decreases k,
{
    if k > 0 {
        assert forall|j: int| 0 <= j < k - 1 implies !stops.contains(#[trigger] s.skip(1)[j]) by {
            assert(s.skip(1)[j] == s[j + 1]);
        }
        lemma_before_any(s.skip(1), stops, k - 1);
        assert(s.take(k) =~= seq![s[0]] + s.skip(1).take(k - 1));
    } else {
        assert(s.take(0) =~= Seq::<char>::empty());
    }
}

fn is_requirement_stop(c: char) -> (r: bool)
    ensures
        r == requirement_stops().contains(c),
{
    let r = c == '=' || c == '<' || c == '>' || c == '!' || c == '~' || c == ';' || c == '[' || c == ' ' || c == '@';
    proof {
        let st = requirement_stops();
        if r {
            if c == '=' { assert(st[0] == c); } else if c == '<' { assert(st[1] == c); } else if c == '>' { assert(st[2] == c); }
            else if c == '!' { assert(st[3] == c); } else if c == '~' { assert(st[4] == c); } else if c == ';' { assert(st[5] == c); }
            else if c == '[' { assert(st[6] == c); } else if c == ' ' { assert(st[7] == c); } else { assert(st[8] == c); }
        }
    }
    r
}

fn requirement_name(t: &Vec<char>) -> (r: Vec<char>)
    ensures
        r@ == before_any(t@, requirement_stops()),
{
    let mut k: usize = 0;
    while k < t.len() && !is_requirement_stop(t[k])
        invariant
            k <= t.len(),
            forall|j: int| 0 <= j < k ==> !requirement_stops().contains(#[trigger] t@[j]),
        decreases t.len() - k,
    {
        k = k + 1;
    }
    proof { lemma_before_any(t@, requirement_stops(), k as int); }
    slice_vec(t, 0, k)
}

fn lit(s: &str) -> (r: Vec<char>)
    ensures
        r@ == s@,
{
    to_chars(s)
}

fn requirement_line(line: &Vec<char>) -> (r: Option<(String, String)>)
    ensures
        match requirement_entry(line@) {
            Some(e) => r matches Some(x) && x.0@ == e.0 && x.1@ == e.1,
            None => r is None,
        },
{
    let t = trim_chars(line);
    if t.len() == 0 || t[0] == '#' || t[0] == '-' {
        return None;
    }
    let raw = requirement_name(&t);
    let name = trim_chars(&raw);
    if name.len() == 0 {
        return None;
    }
    let version = match after_seq_chars(&t, &lit("==")) {
        Some(v) => {
            let b = before_char_chars(&v, ';');
            from_chars(trim_chars(&b).as_slice())
        },
        None => string_of("*"),
    };
    Some((from_chars(name.as_slice()), version))
}

fn toml_version_chars(v: &Vec<char>) -> (r: String)
    ensures
        r@ == toml_version(v@),
{
    if v.len() > 0 && v[0] == '"' {
        let rest = slice_vec(v, 1, v.len());
        assert(rest@ =~= v@.skip(1));
        return from_chars(before_char_chars(&rest, '"').as_slice());
    }
    match after_seq_chars(v, &lit("version")) {
        Some(r) => match after_seq_chars(&r, &lit("\"")) {
            Some(x) => from_chars(before_char_chars(&x, '"').as_slice()),
            None => string_of("*"),
        },
        None => string_of("*"),
    }
}

fn toml_line(kind: &ManifestKind, in_deps: bool, line: &Vec<char>) -> (r: (bool, Option<(String, String)>))
    ensures
        r.0 == toml_step(*kind, in_deps, line@).0,
        match toml_step(*kind, in_deps, line@).1 {
            Some(e) => r.1 matches Some(x) && x.0@ == e.0 && x.1@ == e.1,
            None => r.1 is None,
        },
{
    let t = trim_chars(line);
    if t.len() > 0 && t[0] == '[' {
        let is_table = match kind {
            ManifestKind::Cargo => chars_eq(t.as_slice(), lit("[dependencies]").as_slice())
                || chars_eq(t.as_slice(), lit("[dev-dependencies]").as_slice()),
            _ => chars_eq(t.as_slice(), lit("[tool.poetry.dependencies]").as_slice())
                || chars_eq(t.as_slice(), lit("[tool.poetry.dev-dependencies]").as_slice()),
        };
        return (is_table, None);
    }
    if in_deps && t.len() > 0 && t[0] != '#' {
        match after_seq_chars(&t, &lit("=")) {
            Some(v) => {
                let before = before_char_chars(&t, '=');
                let name = trim_chars(&before);
                let is_python = match kind {
                    ManifestKind::Poetry => chars_eq(name.as_slice(), lit("python").as_slice()),
                    _ => false,
                };
                if name.len() > 0 && !is_python {
                    let tv = trim_chars(&v);
                    return (true, Some((from_chars(name.as_slice()), toml_version_chars(&tv))));
                }
                return (true, None);
            },
            None => {
                return (true, None);
            },
        }
    }
    (in_deps, None)
}

fn go_line(in_block: bool, line: &Vec<char>) -> (r: (bool, Option<(String, String)>))
    ensures
        r.0 == go_step(in_block, line@).0,
        match go_step(in_block, line@).1 {
            Some(e) => r.1 matches Some(x) && x.0@ == e.0 && x.1@ == e.1,
            None => r.1 is None,
        },
{
    let t = trim_chars(line);
    let ws = split_words(&t);
    let ghost wv = ws.deep_view();
    if chars_eq(t.as_slice(), lit("require (").as_slice()) {
        return (true, None);
    }
    if in_block && chars_eq(t.as_slice(), lit(")").as_slice()) {
        return (false, None);
    }
    let comment = t.len() >= 2 && t[0] == '/' && t[1] == '/';
    if in_block && ws.len() >= 2 && !comment {
        assert(ws[0]@ =~= wv[0] && ws[1]@ =~= wv[1]);
        return (true, Some((from_chars(ws[0].as_slice()), from_chars(ws[1].as_slice()))));
    }
    if !in_block && ws.len() >= 3 {
        assert(ws[0]@ =~= wv[0] && ws[1]@ =~= wv[1] && ws[2]@ =~= wv[2]);
        if chars_eq(ws[0].as_slice(), lit("require").as_slice()) {
            return (false, Some((from_chars(ws[1].as_slice()), from_chars(ws[2].as_slice()))));
        }
    }
    (in_block, None)
}

fn manifest_line(kind: &ManifestKind, state: bool, line: &Vec<char>) -> (r: (bool, Option<(String, String)>))
    ensures
        r.0 == manifest_step(*kind, state, line@).0,
        match manifest_step(*kind, state, line@).1 {
            Some(e) => r.1 matches Some(x) && x.0@ == e.0 && x.1@ == e.1,
            None => r.1 is None,
        },
{
    match kind {
        ManifestKind::Requirements => (state, requirement_line(line)),
        ManifestKind::GoMod => go_line(state, line),
        _ => toml_line(kind, state, line),
    }
}

/// The dependencies a manifest declares, each name once (a later
/// declaration replacing an earlier one).
pub fn manifest_dependencies(kind: &ManifestKind, text: &str) -> (r: Vec<(String, String)>)
    ensures
        r.deep_view() == manifest_deps(*kind, text@),
        distinct_keys(r.deep_view()),
{
    let chars = to_chars(text);
    let ls = split_lines(&chars);
    let ghost lv = ls.deep_view();
    let mut out: Vec<(String, String)> = Vec::new();
    let mut state = false;
    let mut i: usize = 0;
    assert(out.deep_view() =~= Seq::<(Seq<char>, Seq<char>)>::empty());
    while i < ls.len()
        invariant
            i <= ls.len(),
            lv == ls.deep_view(),
            lv == lines(text@),
            state == manifest_scan(*kind, lv.take(i as int)).0,
            out.deep_view() == manifest_scan(*kind, lv.take(i as int)).1,
            distinct_keys(out.deep_view()),
        decreases ls.len() - i,
    {
        assert(lv.take(i + 1).drop_last() =~= lv.take(i as int));
        assert(ls[i as int]@ =~= lv[i as int]);
        let (next, entry) = manifest_line(kind, state, &ls[i]);
        match entry {
            Some((k, v)) => upsert_exec(&mut out, k, v),
            None => {},
        }
        state = next;
        i = i + 1;
    }
    assert(lv.take(ls.len() as int) =~= lv);
    out
}

} // verus!
