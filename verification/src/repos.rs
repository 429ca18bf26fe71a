//! Finding repositories under the watched folders: which directories the
//! walk enters, and the list of repositories found.
use vstd::prelude::*;
use crate::text::{chars_eq, to_chars};

verus! {

/// The directory names the walk never enters.
pub open spec fn skipped_names() -> Seq<Seq<char>> {
    seq!["node_modules"@, "target"@, "dist"@, "build"@, "vendor"@]
}

/// Whether the walk passes over an entry: it is no directory, or its name is
/// hidden (starts with `.`, other than `.` itself) or one of the skipped names.
pub open spec fn spec_skip_entry(is_dir: bool, name: Option<Seq<char>>) -> bool {
    !is_dir || match name {
        Some(n) => (n.len() > 0 && n[0] == '.' && n != seq!['.']) || skipped_names().contains(n),
        None => false,
    }
}

/// Whether the walk passes over an entry (`name` is its file name when it
/// has one that is valid UTF-8).
pub fn skip_entry(is_dir: bool, name: Option<&str>) -> (r: bool)
    ensures
        r == spec_skip_entry(is_dir, match name {
            Some(n) => Some(n@),
            None => None,
        }),
{
    if !is_dir {
        return true;
    }
    match name {
        None => false,
        Some(n) => {
            let c = to_chars(n);
            let hidden = c.len() > 0 && c[0] == '.' && !(c.len() == 1);
            assert(hidden == (c@.len() > 0 && c@[0] == '.' && c@ != seq!['.'])) by {
                if c@.len() == 1 && c@[0] == '.' {
                    assert(c@ =~= seq!['.']);
                }
            }
            if hidden {
                return true;
            }
            let names: [&str; 5] = ["node_modules", "target", "dist", "build", "vendor"];
            let ghost nv = names@.map_values(|e: &str| e@);
            assert(nv =~= skipped_names());
            let mut i: usize = 0;
            while i < 5
                invariant
                    i <= 5,
                    nv == names@.map_values(|e: &str| e@),
                    nv == skipped_names(),
                    c@ == n@,
                    is_dir,
                    name == Some(n),
                    forall|j: int| 0 <= j < i ==> nv[j] != n@,
                decreases 5 - i,
            {
                let e = to_chars(names[i]);
                if chars_eq(e.as_slice(), c.as_slice()) {
                    assert(nv[i as int] == n@);
                    assert(skipped_names().contains(n@));
                    return true;
                }
                i = i + 1;
            }
            false
        },
    }
}

/// Law: the walk enters a directory exactly when its name is not hidden and
/// is none of `node_modules`, `target`, `dist`, `build`, `vendor`; it enters
/// no other entry.
pub proof fn law_walk_skips(is_dir: bool, n: Seq<char>)
    ensures
        spec_skip_entry(is_dir, Some(n)) <==> (!is_dir || (n.len() > 0 && n[0] == '.' && n != seq!['.'])
            || n == "node_modules"@ || n == "target"@ || n == "dist"@ || n == "build"@ || n == "vendor"@),
{
    let l = skipped_names();
    assert(l[0] == "node_modules"@ && l[1] == "target"@ && l[2] == "dist"@ && l[3] == "build"@ && l[4] == "vendor"@);
    if l.contains(n) {
        let i = choose|i: int| 0 <= i < l.len() && l[i] == n;
        assert(l.len() == 5);
    }
}

/// Whether a path is already listed.
pub open spec fn has_path(repos: Seq<(Seq<char>, Seq<char>)>, path: Seq<char>) -> bool {
    exists|i: int| 0 <= i < repos.len() && repos[i].1 == path
}

/// `repos` followed by the `(name, path)` pairs of `found` whose path is not
/// listed yet, each path once.
pub open spec fn add_found(repos: Seq<(Seq<char>, Seq<char>)>, found: Seq<(Seq<char>, Seq<char>)>) -> Seq<(Seq<char>, Seq<char>)>
    decreases found.len(),
{
    if found.len() == 0 {
        repos
    } else {
        let before = add_found(repos, found.drop_last());
        let f = found.last();
        if has_path(before, f.1) {
            before
        } else {
            before.push(f)
        }
    }
}

/// Adds the repositories found under one root to the list, skipping paths
/// already listed.
pub fn add_found_repos(repos: &mut Vec<(String, String)>, found: &Vec<(String, String)>)
    ensures
        final(repos).deep_view() == add_found(old(repos).deep_view(), found.deep_view()),
{
    let ghost r0 = repos.deep_view();
    let ghost fv = found.deep_view();
    let mut i: usize = 0;
    while i < found.len()
        invariant
            i <= found.len(),
            fv == found.deep_view(),
            r0 == old(repos).deep_view(),
            repos.deep_view() == add_found(r0, fv.take(i as int)),
        decreases found.len() - i,
    {
        assert(fv.take(i + 1).drop_last() =~= fv.take(i as int));
        let path = to_chars(found[i].1.as_str());
        let ghost rv = repos.deep_view();
        let mut k: usize = 0;
        let mut dup = false;
        while k < repos.len()
            invariant
                k <= repos.len(),
                rv == repos.deep_view(),
                path@ == found[i as int].1@,
                !dup ==> forall|j: int| 0 <= j < k ==> rv[j].1 != path@,
                dup ==> has_path(rv, path@),
            decreases repos.len() - k,
        {
            let other = to_chars(repos[k].1.as_str());
            if chars_eq(other.as_slice(), path.as_slice()) {
                assert(rv[k as int].1 == path@);
                dup = true;
            }
            k = k + 1;
        }
        assert(fv[i as int] == (found[i as int].0@, found[i as int].1@));
        if !dup {
            repos.push((found[i].0.clone(), found[i].1.clone()));
            assert(repos.deep_view() =~= rv.push(fv[i as int]));
        }
        i = i + 1;
    }
    assert(fv.take(found.len() as int) =~= fv);
}

/// Law: the repository list names each path once, when it did before.
pub proof fn law_repo_paths_distinct(repos: Seq<(Seq<char>, Seq<char>)>, found: Seq<(Seq<char>, Seq<char>)>)
    requires
        forall|i: int, j: int| 0 <= i < j < repos.len() ==> repos[i].1 != repos[j].1,
    ensures
        ({
            let r = add_found(repos, found);
            forall|i: int, j: int| 0 <= i < j < r.len() ==> r[i].1 != r[j].1
        }),
    decreases found.len(),
{
    if found.len() > 0 {
        law_repo_paths_distinct(repos, found.drop_last());
        let before = add_found(repos, found.drop_last());
        let f = found.last();
        if !has_path(before, f.1) {
            let r = before.push(f);
            assert forall|i: int, j: int| 0 <= i < j < r.len() implies r[i].1 != r[j].1 by {
                assert(r[i] == before[i]);
                if j < before.len() {
                    assert(r[j] == before[j]);
                }
            }
        }
    }
}

/// Law: collecting the repositories found under roots one after another is
/// collecting over all that was found at once: those of the first roots,
/// then those of the later ones that are not listed yet.
pub proof fn law_found_in_sequence(
    repos: Seq<(Seq<char>, Seq<char>)>,
    a: Seq<(Seq<char>, Seq<char>)>,
    b: Seq<(Seq<char>, Seq<char>)>,
)
    ensures
        add_found(repos, a + b) == add_found(add_found(repos, a), b),
    decreases b.len(),
{
    if b.len() == 0 {
        assert(a + b =~= a);
    } else {
        law_found_in_sequence(repos, a, b.drop_last());
        assert((a + b).drop_last() =~= a + b.drop_last());
        assert((a + b).last() == b.last());
    }
}

} // verus!
