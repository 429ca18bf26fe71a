//! Application state, watched folders and the persisted theme.
use vstd::prelude::*;
use crate::json::{
    decode_json_string, decode_json_string_list, encode_json_string, encode_json_string_list_pretty,
    json_string_list_pretty_text, json_string_list_value, json_string_text, json_string_value,
};
use crate::text::{chars_eq, from_chars, has_prefix_at, slice_vec, string_of, to_chars};

verus! {

/// A copy of a list of strings.
pub fn copy_strings(v: &Vec<String>) -> (r: Vec<String>)
    ensures
        r.deep_view() == v.deep_view(),
{
    let mut r: Vec<String> = Vec::new();
    let mut i: usize = 0;
    while i < v.len()
        invariant
            i <= v.len(),
            r.deep_view() == v.deep_view().take(i as int),
        decreases v.len() - i,
    {
        let ghost before = r.deep_view();
        r.push(v[i].clone());
        assert(r.deep_view() =~= before.push(v[i as int]@));
        assert(v.deep_view().take(i + 1) =~= v.deep_view().take(i as int).push(v[i as int]@));
        i = i + 1;
    }
    assert(v.deep_view().take(v.len() as int) =~= v.deep_view());
    r
}

// ---------------------------------------------------------------------------
// Shared state
// ---------------------------------------------------------------------------

/// State shared by the commands and the background monitor: the watched
/// folders and the keys of the alerts already notified.
pub struct AppState {
    pub watch_dirs: Vec<String>,
    pub notified_keys: Vec<String>,
}

impl AppState {
    /// The notified keys form a set: none occurs twice.
    pub open spec fn well_formed(&self) -> bool {
        self.notified_keys.deep_view().no_duplicates()
    }

    /// A state watching `watch_dirs`, with nothing notified yet.
    pub fn new(watch_dirs: Vec<String>) -> (r: AppState)
        ensures
            r.well_formed(),
            r.watch_dirs.deep_view() == watch_dirs.deep_view(),
            r.notified_keys.deep_view() == Seq::<Seq<char>>::empty(),
    {
        let r = AppState { watch_dirs, notified_keys: Vec::new() };
        assert(r.notified_keys.deep_view() =~= Seq::<Seq<char>>::empty());
        r
    }

    /// The watched folders.
    pub fn get_watch_dirs(&self) -> (r: Vec<String>)
        ensures
            r.deep_view() == self.watch_dirs.deep_view(),
    {
        copy_strings(&self.watch_dirs)
    }

    /// Replaces the watched folders; returns them.
    pub fn set_watch_dirs(&mut self, dirs: Vec<String>) -> (r: Vec<String>)
        ensures
            final(self).watch_dirs.deep_view() == dirs.deep_view(),
            final(self).notified_keys.deep_view() == old(self).notified_keys.deep_view(),
            old(self).well_formed() ==> final(self).well_formed(),
            r.deep_view() == dirs.deep_view(),
    {
        self.watch_dirs = copy_strings(&dirs);
        dirs
    }
}

// ---------------------------------------------------------------------------
// Watched folders
// ---------------------------------------------------------------------------

/// `s` without the repeated occurrences of `pat` at its start (`trim_start_matches`).
pub open spec fn trim_prefix_rep(s: Seq<char>, pat: Seq<char>) -> Seq<char>
    decreases s.len(),
{
    if pat.len() > 0 && s.len() >= pat.len() && s.take(pat.len() as int) == pat {
        trim_prefix_rep(s.skip(pat.len() as int), pat)
    } else {
        s
    }
}

/// For a path written from the home folder (`~` or starting with `~/`), the
/// part below the home folder: the path with its leading `~/`s and then its
/// leading `~`s removed. `None` for other paths.
pub open spec fn spec_home_relative(p: Seq<char>) -> Option<Seq<char>> {
    if (p.len() >= 2 && p.take(2) == seq!['~', '/']) || p == seq!['~'] {
        Some(trim_prefix_rep(trim_prefix_rep(p, seq!['~', '/']), seq!['~']))
    } else {
        None
    }
}

fn trim_prefix_rep_chars(v: &Vec<char>, pat: &Vec<char>) -> (r: Vec<char>)
    ensures
        r@ == trim_prefix_rep(v@, pat@),
{
    if pat.len() == 0 {
        return slice_vec(v, 0, v.len());
    }
    let mut a: usize = 0;
    assert(v@.skip(0) =~= v@);
    while has_prefix_at(v.as_slice(), a, pat.as_slice())
        invariant
            a <= v.len(),
            pat.len() > 0,
            trim_prefix_rep(v@, pat@) == trim_prefix_rep(v@.skip(a as int), pat@),
        decreases v.len() - a,
    {
        assert(v@.skip(a as int).take(pat@.len() as int) =~= v@.subrange(a as int, a + pat@.len()));
        assert(v@.skip(a as int).skip(pat@.len() as int) =~= v@.skip(a + pat@.len()));
        a = a + pat.len();
    }
    proof {
        let s = v@.skip(a as int);
        if s.len() >= pat@.len() {
            assert(s.take(pat@.len() as int) =~= v@.subrange(a as int, a + pat@.len()));
        }
    }
    let r = slice_vec(v, a, v.len());
    assert(r@ =~= v@.skip(a as int));
    r
}

/// The part of a path below the home folder, for `~` and paths starting with `~/`.
pub fn home_relative(p: &str) -> (r: Option<String>)
    ensures
        match spec_home_relative(p@) {
            Some(s) => r matches Some(v) && v@ == s,
            None => r is None,
        },
{
    let v = to_chars(p);
    let tilde_slash = to_chars("~/");
    let tilde = to_chars("~");
    proof {
        reveal_strlit("~/");
        reveal_strlit("~");
        assert(tilde_slash@ =~= seq!['~', '/']);
        assert(tilde@ =~= seq!['~']);
    }
    let starts = has_prefix_at(v.as_slice(), 0, tilde_slash.as_slice());
    assert(starts == (v@.len() >= 2 && v@.take(2) == seq!['~', '/'])) by {
        assert(v@.subrange(0, 2) =~= v@.take(2));
    }
    if !(starts || chars_eq(v.as_slice(), tilde.as_slice())) {
        return None;
    }
    let a = trim_prefix_rep_chars(&v, &tilde_slash);
    let b = trim_prefix_rep_chars(&a, &tilde);
    Some(from_chars(b.as_slice()))
}

/// `s` without its later repeats: the first occurrence of each string, in order.
pub open spec fn dedup(s: Seq<Seq<char>>) -> Seq<Seq<char>>
    decreases s.len(),
{
    if s.len() == 0 {
        Seq::empty()
    } else {
        let d = dedup(s.drop_last());
        if d.contains(s.last()) {
            d
        } else {
            d.push(s.last())
        }
    }
}

/// The strings of `v` without their later repeats, in first-seen order.
pub fn dedup_strings(v: &Vec<String>) -> (r: Vec<String>)
    ensures
        r.deep_view() == dedup(v.deep_view()),
{
    let ghost all = v.deep_view();
    let mut out: Vec<String> = Vec::new();
    let mut i: usize = 0;
    while i < v.len()
        invariant
            all == v.deep_view(),
            i <= v.len(),
            out.deep_view() == dedup(all.take(i as int)),
        decreases v.len() - i,
    {
        let item: &String = &v[i];
        assert(item@ == all[i as int]);
        assert(all.take(i + 1).drop_last() =~= all.take(i as int));
        let c = to_chars(item.as_str());
        let mut k: usize = 0;
        let mut found = false;
        let ghost ov = out.deep_view();
        while k < out.len()
            invariant
                k <= out.len(),
                ov == out.deep_view(),
                c@ == item@,
                !found ==> forall|j: int| 0 <= j < k ==> ov[j] != item@,
                found ==> ov.contains(item@),
            decreases out.len() - k,
        {
            let o = to_chars(out[k].as_str());
            if chars_eq(o.as_slice(), c.as_slice()) {
                assert(ov[k as int] == item@);
                found = true;
            }
            k = k + 1;
        }
        if !found {
            out.push(item.clone());
            assert(out.deep_view() =~= ov.push(item@));
        }
        i = i + 1;
    }
    assert(all.take(v.len() as int) =~= all);
    out
}

/// The watched folders: the saved list when there is one (a folder removed in
/// the settings stays removed), else the default folders; each folder once,
/// in first-seen order.
pub open spec fn spec_watch_dirs(defaults: Seq<Seq<char>>, saved: Option<Seq<Seq<char>>>) -> Seq<Seq<char>> {
    match saved {
        Some(l) => dedup(l),
        None => dedup(defaults),
    }
}

/// The watched folders at start: the saved list when there is one, else the
/// default folders, without repeats.
pub fn watch_dirs_from(defaults: &Vec<String>, saved: Option<&Vec<String>>) -> (r: Vec<String>)
    ensures
        r.deep_view() == spec_watch_dirs(defaults.deep_view(), match saved {
            Some(l) => Some(l.deep_view()),
            None => None,
        }),
{
    match saved {
        Some(l) => dedup_strings(l),
        None => dedup_strings(defaults),
    }
}

/// The saved watch list, when the configuration text is a JSON array of strings.
pub fn saved_watch_dirs(text: &str) -> (r: Option<Vec<String>>)
    ensures
        match json_string_list_value(text@) {
            Some(l) => r matches Some(v) && v.deep_view() == l,
            None => r is None,
        },
{
    decode_json_string_list(text)
}

proof fn lemma_dedup_distinct(s: Seq<Seq<char>>)
    requires
        s.no_duplicates(),
    ensures
        dedup(s) == s,
    decreases s.len(),
{
    if s.len() > 0 {
        let d = s.drop_last();
        assert(d.no_duplicates()) by {
            assert forall|i: int, j: int| 0 <= i < d.len() && 0 <= j < d.len() && i != j implies d[i] != d[j] by {
                assert(d[i] == s[i] && d[j] == s[j]);
            }
        }
        lemma_dedup_distinct(d);
        if d.contains(s.last()) {
            let i = choose|i: int| 0 <= i < d.len() && d[i] == s.last();
            assert(s[i] == s[s.len() - 1]);
        }
        assert(d.push(s.last()) =~= s);
    }
}

/// Law: a watch list written by `watch_dirs_config` is read back by
/// `saved_watch_dirs` as that same list, the empty list included, so with no
/// repeats it is the watch list at the next start, whatever the defaults are.
pub proof fn law_written_list_comes_back(defaults: Seq<Seq<char>>, dirs: Seq<Seq<char>>, text: Seq<char>)
    requires
        json_string_list_value(text) == Some(dirs),
        dirs.no_duplicates(),
    ensures
        spec_watch_dirs(defaults, json_string_list_value(text)) == dirs,
{
    lemma_dedup_distinct(dirs);
}

/// Law: a saved watch list without repeats is the watch list at the next
/// start, whatever the defaults are: a folder removed in the settings stays
/// removed, and one added stays added.
pub proof fn law_saved_list_wins(defaults: Seq<Seq<char>>, saved: Seq<Seq<char>>)
    requires
        saved.no_duplicates(),
    ensures
        spec_watch_dirs(defaults, Some(saved)) == saved,
{
    lemma_dedup_distinct(saved);
}

/// Law: the watch list holds each folder of the list it comes from, once,
/// and nothing else.
pub proof fn law_dedup_exact(s: Seq<Seq<char>>)
    ensures
        dedup(s).no_duplicates(),
        forall|x: Seq<char>| dedup(s).contains(x) <==> s.contains(x),
    decreases s.len(),
{
    if s.len() > 0 {
        law_dedup_exact(s.drop_last());
        let d = dedup(s.drop_last());
        assert forall|x: Seq<char>| dedup(s).contains(x) <==> s.contains(x) by {
            if s.contains(x) && x != s.last() {
                let i = choose|i: int| 0 <= i < s.len() && s[i] == x;
                assert(s.drop_last()[i] == x);
            }
            if s.drop_last().contains(x) {
                let i = choose|i: int| 0 <= i < s.drop_last().len() && s.drop_last()[i] == x;
                assert(s[i] == x);
            }
            if !d.contains(s.last()) {
                assert(d.push(s.last())[d.len() as int] == s.last());
                if d.contains(x) {
                    let i = choose|i: int| 0 <= i < d.len() && d[i] == x;
                    assert(d.push(s.last())[i] == x);
                }
                if d.push(s.last()).contains(x) && x != s.last() {
                    let i = choose|i: int| 0 <= i < d.len() + 1 && d.push(s.last())[i] == x;
                    assert(d[i] == x);
                }
            }
        }
    }
}

/// The folders a watch-list configuration file lists, from what reading it
/// as a JSON array of strings gave: those strings, or none when it is no such array.
pub open spec fn dirs_choice(decoded: Option<Seq<Seq<char>>>) -> Seq<Seq<char>> {
    match decoded {
        Some(l) => l,
        None => Seq::empty(),
    }
}

/// The folders a watch-list configuration file lists.
pub open spec fn spec_config_dirs(text: Seq<char>) -> Seq<Seq<char>> {
    dirs_choice(json_string_list_value(text))
}

/// The folders listed, from what reading the file as a list of strings gave.
pub fn dirs_or_empty(decoded: Option<Vec<String>>) -> (r: Vec<String>)
    ensures
        r.deep_view() == dirs_choice(match decoded {
            Some(l) => Some(l.deep_view()),
            None => None,
        }),
{
    match decoded {
        Some(l) => l,
        None => {
            let r: Vec<String> = Vec::new();
            assert(r.deep_view() =~= Seq::<Seq<char>>::empty());
            r
        },
    }
}

/// The folders listed by a watch-list configuration file.
pub fn config_dirs(text: &str) -> (r: Vec<String>)
    ensures
        r.deep_view() == spec_config_dirs(text@),
{
    dirs_or_empty(decode_json_string_list(text))
}

/// The text of a watch-list configuration file for `dirs`.
pub fn watch_dirs_config(dirs: &Vec<String>) -> (r: Option<String>)
    ensures
        match json_string_list_pretty_text(dirs.deep_view()) {
            Some(t) => r matches Some(v) && v@ == t,
            None => r is None,
        },
        r is Some,
        r matches Some(t) ==> json_string_list_value(t@) == Some(dirs.deep_view()),
        r matches Some(t) ==> spec_config_dirs(t@) == dirs.deep_view(),
{
    encode_json_string_list_pretty(dirs.as_slice())
}

// ---------------------------------------------------------------------------
// Theme
// ---------------------------------------------------------------------------

/// The theme, from what reading a theme file as a JSON string gave: that
/// string, else `dark`.
pub open spec fn theme_choice(decoded: Option<Seq<char>>) -> Seq<char> {
    match decoded {
        Some(s) => s,
        None => "dark"@,
    }
}

/// The theme a theme file holds (`None`: there is no readable file, and the
/// theme is `dark`).
pub open spec fn spec_theme(text: Option<Seq<char>>) -> Seq<char> {
    match text {
        Some(t) => theme_choice(json_string_value(t)),
        None => "dark"@,
    }
}

/// The theme, from what reading the theme file as a JSON string gave.
pub fn theme_or_default(decoded: Option<String>) -> (r: String)
    ensures
        r@ == theme_choice(match decoded {
            Some(s) => Some(s@),
            None => None,
        }),
{
    match decoded {
        Some(s) => s,
        None => string_of("dark"),
    }
}

/// The theme a theme file holds (`None` when there is no readable file).
pub fn theme_from_config(text: Option<&str>) -> (r: String)
    ensures
        r@ == spec_theme(match text {
            Some(t) => Some(t@),
            None => None,
        }),
{
    match text {
        Some(t) => theme_or_default(decode_json_string(t)),
        None => string_of("dark"),
    }
}

/// The text of a theme file for `theme`.
pub fn theme_config(theme: &str) -> (r: Option<String>)
    ensures
        match json_string_text(theme@) {
            Some(t) => r matches Some(v) && v@ == t,
            None => r is None,
        },
        r is Some,
        r matches Some(t) ==> spec_theme(Some(t@)) == theme@,
{
    encode_json_string(theme)
}

} // verus!
