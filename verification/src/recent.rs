//! "Resume work": recently touched files across repositories.
//!
//! The process runs and file-system reads happen outside; this module turns
//! their textual output into ranked, deduplicated entries.
use vstd::prelude::*;
use crate::clock::{iso_timestamp, iso_timestamp_of};
use crate::search::{file_name, path_file_name};
use crate::text::{
    all_digits, join_path, join_path_str, chars_eq, is_digit, parse_unsigned,
    parse_unsigned_chars, boundary_index, byte_len, decimal, from_chars,
    lemma_byte_len_step, lemma_byte_len_strict, lines, push_decimal,
    push_str, slice_vec, split_lines, to_chars, trim, trim_chars, utf8_len_of,
};

verus! {

/// A recently-touched file across any watched repo.
pub struct RecentFile {
    /// Display name of the file (basename)
    pub filename: String,
    /// Repo-relative path, e.g. "src/main.rs"
    pub relative_path: String,
    /// Absolute path for opening in an editor
    pub absolute_path: String,
    /// Short name of the owning repo
    pub repo: String,
    /// ISO 8601 UTC date-time of the last change, e.g. "2023-11-14T22:13:20Z"
    pub timestamp: String,
    /// Human-readable age string, e.g. "2h ago"
    pub age: String,
}

pub struct RecentFileView {
    pub filename: Seq<char>,
    pub relative_path: Seq<char>,
    pub absolute_path: Seq<char>,
    pub repo: Seq<char>,
    pub timestamp: Seq<char>,
    pub age: Seq<char>,
}

impl View for RecentFile {
    type V = RecentFileView;

    open spec fn view(&self) -> RecentFileView {
        RecentFileView {
            filename: self.filename@,
            relative_path: self.relative_path@,
            absolute_path: self.absolute_path@,
            repo: self.repo@,
            timestamp: self.timestamp@,
            age: self.age@,
        }
    }
}

impl RecentFile {
    /// A field-by-field copy.
    pub fn copy(&self) -> (r: RecentFile)
        ensures
            r@ == self@,
    {
        RecentFile {
            filename: self.filename.clone(),
            relative_path: self.relative_path.clone(),
            absolute_path: self.absolute_path.clone(),
            repo: self.repo.clone(),
            timestamp: self.timestamp.clone(),
            age: self.age.clone(),
        }
    }
}

// ---------------------------------------------------------------------------
// Ages
// ---------------------------------------------------------------------------

/// Human-readable age of something `seconds` old.
pub open spec fn spec_human_age(seconds: int) -> Seq<char> {
    if seconds < 120 {
        "just now"@
    } else if seconds < 3600 {
        decimal((seconds / 60) as nat) + "m ago"@
    } else if seconds < 86400 {
        decimal((seconds / 3600) as nat) + "h ago"@
    } else if seconds < 604800 {
        decimal((seconds / 86400) as nat) + "d ago"@
    } else {
        decimal((seconds / 604800) as nat) + "w ago"@
    }
}

proof fn lemma_whole_units(s: int, n: int, u: int)
    requires
        u > 0,
        n * u <= s < n * u + u,
    ensures
        s / u == n,
{
    assert(s / u == n) by (nonlinear_arith)
        requires
            u > 0,
            n * u <= s < n * u + u,
    {
        let q = s / u;
        let r = s % u;
        assert(s == q * u + r && 0 <= r < u);
        if q < n {
            assert(q * u + u <= n * u);
        }
        if q > n {
            assert(n * u + u <= q * u);
        }
    }
}

/// Law: an age under two minutes (or negative) reads "just now"; otherwise it
/// is the number of whole units it holds of the largest unit that fits:
/// minutes under an hour, hours under a day, days under a week, weeks beyond.
pub proof fn law_human_age_units(seconds: int, n: nat)
    ensures
        seconds < 120 ==> spec_human_age(seconds) == "just now"@,
        120 <= seconds < 3600 && n * 60 <= seconds < n * 60 + 60 ==> spec_human_age(seconds) == decimal(n) + "m ago"@,
        3600 <= seconds < 86400 && n * 3600 <= seconds < n * 3600 + 3600 ==> spec_human_age(seconds) == decimal(n)
            + "h ago"@,
        86400 <= seconds < 604800 && n * 86400 <= seconds < n * 86400 + 86400 ==> spec_human_age(seconds)
            == decimal(n) + "d ago"@,
        604800 <= seconds && n * 604800 <= seconds < n * 604800 + 604800 ==> spec_human_age(seconds) == decimal(n)
            + "w ago"@,
{
    if 120 <= seconds < 3600 && n * 60 <= seconds < n * 60 + 60 {
        lemma_whole_units(seconds, n as int, 60);
    }
    if 3600 <= seconds < 86400 && n * 3600 <= seconds < n * 3600 + 3600 {
        lemma_whole_units(seconds, n as int, 3600);
    }
    if 86400 <= seconds < 604800 && n * 86400 <= seconds < n * 86400 + 86400 {
        lemma_whole_units(seconds, n as int, 86400);
    }
    if 604800 <= seconds && n * 604800 <= seconds < n * 604800 + 604800 {
        lemma_whole_units(seconds, n as int, 604800);
    }
}

/// Human-readable age: "just now" under two minutes (and for negative ages),
/// then whole minutes, hours, days or weeks.
pub fn human_age(seconds: i64) -> (r: String)
    ensures
        r@ == spec_human_age(seconds as int),
{
    let mut s = String::new();
    if seconds < 120 {
        push_str(&mut s, "just now");
    } else if seconds < 3600 {
        push_decimal(&mut s, (seconds / 60) as u64);
        push_str(&mut s, "m ago");
    } else if seconds < 86400 {
        push_decimal(&mut s, (seconds / 3600) as u64);
        push_str(&mut s, "h ago");
    } else if seconds < 604800 {
        push_decimal(&mut s, (seconds / 86400) as u64);
        push_str(&mut s, "d ago");
    } else {
        push_decimal(&mut s, (seconds / 604800) as u64);
        push_str(&mut s, "w ago");
    }
    assert(s@ =~= spec_human_age(seconds as int));
    s
}

/// The entry for the file at the relative path `rel` of `repo` (rooted at
/// `repo_path`), last changed at `ts` (seconds since the Unix epoch), seen at
/// time `now`: shown by its file name, opened at its path inside the
/// repository for the host's separator, stamped with the ISO 8601 date-time.
pub open spec fn spec_recent_file(
    rel: Seq<char>,
    repo_path: Seq<char>,
    repo: Seq<char>,
    ts: int,
    now: int,
    windows: bool,
) -> RecentFileView {
    RecentFileView {
        filename: display_name(rel),
        relative_path: rel,
        absolute_path: join_path(repo_path, rel, windows),
        repo: repo,
        timestamp: iso_timestamp(ts),
        age: spec_human_age(now - ts),
    }
}

/// Builds the entry for a file changed at `ts`, seen at `now`.
pub fn make_recent_file(
    relative_path: String,
    repo_path: &str,
    repo: &str,
    ts: i64,
    now: i64,
    windows: bool,
) -> (r: RecentFile)
    requires
        i64::MIN <= now - ts <= i64::MAX,
    ensures
        r@ == spec_recent_file(relative_path@, repo_path@, repo@, ts as int, now as int, windows),
{
    let rel_chars = to_chars(relative_path.as_str());
    let absolute_path = join_path_str(repo_path, rel_chars.as_slice(), windows);
    let filename = match path_file_name(&rel_chars) {
        Some(f) => from_chars(f.as_slice()),
        None => relative_path.clone(),
    };
    let mut repo_s = String::new();
    push_str(&mut repo_s, repo);
    assert(repo_s@ =~= repo@);
    RecentFile {
        filename,
        relative_path,
        absolute_path,
        repo: repo_s,
        timestamp: iso_timestamp_of(ts),
        age: human_age(now - ts),
    }
}

// ---------------------------------------------------------------------------
// `git status --porcelain`
// ---------------------------------------------------------------------------

/// The path a porcelain status line `XY PATH` names: the line from byte 3
/// on (after the two status columns and the space), trimmed, when the line is
/// longer than 3 bytes and that is not blank. `None` when byte 3 falls inside
/// a character (the slice would panic).
pub open spec fn porcelain_path(line: Seq<char>) -> Option<Option<Seq<char>>> {
    if byte_len(line) > 3 {
        match boundary_index(line, 3) {
            Some(k) => if trim(line.skip(k)).len() > 0 {
                Some(Some(trim(line.skip(k))))
            } else {
                Some(None)
            },
            None => None,
        }
    } else {
        Some(None)
    }
}

/// The paths named by the lines of a porcelain status output;
/// `None` when one of the lines cannot be sliced.
pub open spec fn porcelain_paths_of(ls: Seq<Seq<char>>) -> Option<Seq<Seq<char>>>
    decreases ls.len(),
{
    if ls.len() == 0 {
        Some(Seq::empty())
    } else {
        match (porcelain_paths_of(ls.drop_last()), porcelain_path(ls.last())) {
            (Some(acc), Some(Some(p))) => Some(acc.push(p)),
            (Some(acc), Some(None)) => Some(acc),
            _ => None,
        }
    }
}

fn porcelain_line_path(line: &Vec<char>) -> (r: Option<Option<Vec<char>>>)
    ensures
        match porcelain_path(line@) {
            Some(Some(p)) => r matches Some(Some(v)) && v@ == p,
            Some(None) => r matches Some(None),
            None => r is None,
        },
{
    let t = slice_vec(line, 0, line.len());
    assert(t@ =~= line@);
    let mut total: usize = 0;
    let mut j: usize = 0;
    while total < 3 && j < t.len()
        invariant
            j <= t.len(),
            total == byte_len(t@.take(j as int)),
            total < 3 + 4,
            j > 0 ==> byte_len(t@.take(j - 1)) < 3,
        decreases t.len() - j,
    {
        proof { lemma_byte_len_step(t@, j as int); }
        total = total + utf8_len_of(t[j]);
        j = j + 1;
    }
    proof {
        assert(t@.take(t@.len() as int) =~= t@);
    }
    if total < 3 {
        return Some(None);
    }
    if total == 3 {
        if j == t.len() {
            return Some(None);
        }
        proof {
            lemma_byte_len_strict(t@, j as int, t@.len() as int);
            assert(0 <= j <= t@.len() && byte_len(t@.take(j as int)) == 3);
            let k = choose|k: int| 0 <= k <= t@.len() && byte_len(t@.take(k)) == 3;
            if k < j {
                lemma_byte_len_strict(t@, k, j as int);
            } else if k > j {
                lemma_byte_len_strict(t@, j as int, k);
            }
        }
        let rest = slice_vec(&t, j, t.len());
        assert(rest@ =~= t@.skip(j as int));
        let p = trim_chars(&rest);
        if p.len() == 0 {
            return Some(None);
        }
        return Some(Some(p));
    }
    proof {
        // byte 3 falls inside the character t[j - 1]
        if j < t.len() {
            lemma_byte_len_strict(t@, j as int, t@.len() as int);
        }
        assert forall|k: int| 0 <= k <= t@.len() implies byte_len(#[trigger] t@.take(k)) != 3 by {
            if k < j {
                if k < j - 1 {
                    lemma_byte_len_strict(t@, k, j - 1);
                }
            } else if k > j {
                lemma_byte_len_strict(t@, j as int, k);
            }
        }
    }
    None
}

/// The paths named by a `git status --porcelain` output, in order; `None` when
/// a line cannot be sliced at byte 3.
pub fn porcelain_paths(out: &str) -> (r: Option<Vec<String>>)
    ensures
        match porcelain_paths_of(lines(out@)) {
            Some(ps) => r matches Some(v) && v.deep_view() == ps,
            None => r is None,
        },
{
    let chars = to_chars(out);
    let ls = split_lines(&chars);
    let ghost lv = ls.deep_view();
    let mut acc: Vec<String> = Vec::new();
    let mut i: usize = 0;
    while i < ls.len()
        invariant
            i <= ls.len(),
            lv == ls.deep_view(),
            lv == lines(out@),
            porcelain_paths_of(lv.take(i as int)) == Some(acc.deep_view()),
        decreases ls.len() - i,
    {
        assert(lv.take(i + 1).drop_last() =~= lv.take(i as int));
        assert(ls[i as int]@ =~= lv[i as int]);
        match porcelain_line_path(&ls[i]) {
            Some(Some(p)) => {
                let ghost old_acc = acc.deep_view();
                acc.push(from_chars(p.as_slice()));
                assert(acc.deep_view() =~= old_acc.push(p@));
            },
            Some(None) => {},
            None => {
                proof {
                    assert(lv.take(i + 1).last() == lv[i as int]);
                    assert(porcelain_paths_of(lv.take(i + 1)) is None);
                    lemma_porcelain_none_sticks(lv, i as int + 1);
                }
                return None;
            },
        }
        i = i + 1;
    }
    assert(lv.take(ls.len() as int) =~= lv);
    Some(acc)
}

proof fn lemma_porcelain_none_sticks(ls: Seq<Seq<char>>, k: int)
    requires
        0 <= k <= ls.len(),
        porcelain_paths_of(ls.take(k)) is None,
    ensures
        porcelain_paths_of(ls) is None,
    decreases ls.len() - k,
{
    if k < ls.len() {
        assert(ls.take(k + 1).drop_last() =~= ls.take(k));
        lemma_porcelain_none_sticks(ls, k + 1);
    } else {
        assert(ls.take(k) =~= ls);
    }
}

// ---------------------------------------------------------------------------
// `git log --name-only --format=%ct`
// ---------------------------------------------------------------------------

/// Reading a `git log` output line by line: the timestamp of the commit being
/// read, the newest timestamp recorded per path, and the entries emitted.
pub struct LogScan {
    pub current: Option<i64>,
    pub latest: Map<Seq<char>, i64>,
    pub entries: Seq<(i64, Seq<char>)>,
}

/// One line of the log: a line of digits starts a commit (its timestamp, or
/// none when it does not fit an `i64`); any other nonblank line names a file
/// of the current commit, emitted when its timestamp is newer than any seen
/// for that path.
pub open spec fn log_step(st: LogScan, raw: Seq<char>) -> LogScan {
    let line = trim(raw);
    if line.len() == 0 {
        st
    } else if all_digits(line) {
        LogScan {
            current: match parse_unsigned(line, i64::MAX as nat) {
                Some(n) => Some(n as i64),
                None => None,
            },
            ..st
        }
    } else {
        match st.current {
            Some(ts) => {
                let prev = if st.latest.contains_key(line) { st.latest[line] } else { i64::MIN };
                if ts > prev {
                    LogScan {
                        current: st.current,
                        latest: st.latest.insert(line, ts),
                        entries: st.entries.push((ts, line)),
                    }
                } else {
                    st
                }
            },
            None => st,
        }
    }
}

pub open spec fn log_scan(ls: Seq<Seq<char>>) -> LogScan
    decreases ls.len(),
{
    if ls.len() == 0 {
        LogScan { current: None, latest: Map::empty(), entries: Seq::empty() }
    } else {
        log_step(log_scan(ls.drop_last()), ls.last())
    }
}

/// The `(timestamp, path)` entries a `git log` output yields, in order.
pub open spec fn log_entries_of(out: Seq<char>) -> Seq<(i64, Seq<char>)> {
    log_scan(lines(out)).entries
}

/// The map built from key/value pairs, later pairs overriding earlier ones.
pub open spec fn pairs_map(v: Seq<(Seq<char>, i64)>) -> Map<Seq<char>, i64>
    decreases v.len(),
{
    if v.len() == 0 {
        Map::empty()
    } else {
        pairs_map(v.drop_last()).insert(v.last().0, v.last().1)
    }
}

proof fn lemma_pairs_map_absent_suffix(v: Seq<(Seq<char>, i64)>, i: int, k: Seq<char>)
    requires
        0 <= i <= v.len(),
        forall|j: int| i <= j < v.len() ==> v[j].0 != k,
    ensures
        pairs_map(v).contains_key(k) == pairs_map(v.take(i)).contains_key(k),
        pairs_map(v).contains_key(k) ==> pairs_map(v)[k] == pairs_map(v.take(i))[k],
    decreases v.len() - i,
{
    if i < v.len() {
        lemma_pairs_map_absent_suffix(v.drop_last(), i, k);
        assert(v.drop_last().take(i) =~= v.take(i));
    } else {
        assert(v.take(i) =~= v);
    }
}

fn latest_for(seen: &Vec<(Vec<char>, i64)>, key: &Vec<char>) -> (r: Option<i64>)
    ensures
        r == (if pairs_map(seen.deep_view()).contains_key(key@) {
            Some(pairs_map(seen.deep_view())[key@])
        } else {
            None
        }),
{
    let ghost v = seen.deep_view();
    let mut i = seen.len();
    while i > 0
        invariant
            i <= seen.len(),
            v == seen.deep_view(),
            forall|j: int| i <= j < v.len() ==> v[j].0 != key@,
        decreases i,
    {
        assert(seen[i - 1].0@ =~= v[i - 1].0);
        if chars_eq(seen[i - 1].0.as_slice(), key.as_slice()) {
            proof {
                lemma_pairs_map_absent_suffix(v, i as int, key@);
                assert(v.take(i as int).drop_last() =~= v.take(i - 1));
            }
            return Some(seen[i - 1].1);
        }
        i = i - 1;
    }
    proof { lemma_pairs_map_absent_suffix(v, 0, key@); }
    None
}

fn all_digit_chars(v: &Vec<char>) -> (r: bool)
    ensures
        r == all_digits(v@),
{
    let mut i: usize = 0;
    while i < v.len()
        invariant
            i <= v.len(),
            forall|j: int| 0 <= j < i ==> is_digit(#[trigger] v@[j]),
        decreases v.len() - i,
    {
        if !('0' <= v[i] && v[i] <= '9') {
            assert(!is_digit(v@[i as int]));
            return false;
        }
        i = i + 1;
    }
    true
}

/// The `(timestamp, path)` entries of a `git log --name-only --format=%ct`
/// output: each path of a commit, when that commit is newer than any earlier
/// entry for the same path.
pub fn git_log_entries(out: &str) -> (r: Vec<(i64, String)>)
    ensures
        r.deep_view() == log_entries_of(out@),
{
    let chars = to_chars(out);
    let ls = split_lines(&chars);
    let ghost lv = ls.deep_view();
    let mut current: Option<i64> = None;
    let mut seen: Vec<(Vec<char>, i64)> = Vec::new();
    let mut entries: Vec<(i64, String)> = Vec::new();
    let mut i: usize = 0;
    assert(pairs_map(seen.deep_view()) =~= Map::<Seq<char>, i64>::empty());
    while i < ls.len()
        invariant
            i <= ls.len(),
            lv == ls.deep_view(),
            lv == lines(out@),
            log_scan(lv.take(i as int)).current == current,
            log_scan(lv.take(i as int)).latest == pairs_map(seen.deep_view()),
            log_scan(lv.take(i as int)).entries == entries.deep_view(),
        decreases ls.len() - i,
    {
        assert(lv.take(i + 1).drop_last() =~= lv.take(i as int));
        assert(ls[i as int]@ =~= lv[i as int]);
        let line = trim_chars(&ls[i]);
        if line.len() == 0 {
        } else if all_digit_chars(&line) {
            current = match parse_unsigned_chars(line.as_slice(), 0, line.len(), 9223372036854775807u64) {
                Some(n) => Some(n as i64),
                None => None,
            };
            assert(line@.subrange(0, line@.len() as int) =~= line@);
        } else {
            match current {
                Some(ts) => {
                    let prev = match latest_for(&seen, &line) {
                        Some(p) => p,
                        None => i64::MIN,
                    };
                    if ts > prev {
                        let ghost old_seen = seen.deep_view();
                        let ghost old_entries = entries.deep_view();
                        let ghost lc = line@;
                        let name = from_chars(line.as_slice());
                        entries.push((ts, name));
                        assert(line.deep_view() =~= lc);
                        seen.push((line, ts));
                        assert(seen.deep_view().drop_last() =~= old_seen);
                        assert(entries.deep_view() =~= old_entries.push((ts, lc)));
                    }
                },
                None => {},
            }
        }
        i = i + 1;
    }
    assert(lv.take(ls.len() as int) =~= lv);
    entries
}

// ---------------------------------------------------------------------------
// Ranking
// ---------------------------------------------------------------------------

/// A candidate as the ranking sees it: its timestamp and its entry.
pub open spec fn candidates_view(v: Seq<(i64, RecentFile)>) -> Seq<(i64, RecentFileView)> {
    v.map_values(|p: (i64, RecentFile)| (p.0, p.1@))
}

/// Inserts `x` after every leading element whose timestamp is at least `x`'s.
pub open spec fn insert_desc(s: Seq<(i64, RecentFileView)>, x: (i64, RecentFileView)) -> Seq<(i64, RecentFileView)>
    decreases s.len(),
{
    if s.len() == 0 {
        seq![x]
    } else if s[0].0 < x.0 {
        seq![x] + s
    } else {
        seq![s[0]] + insert_desc(s.skip(1), x)
    }
}

/// The stable sort of `s` by timestamp, newest first
/// (`sort_by(|a, b| b.0.cmp(&a.0))`).
pub open spec fn sort_desc(s: Seq<(i64, RecentFileView)>) -> Seq<(i64, RecentFileView)>
    decreases s.len(),
{
    if s.len() == 0 {
        Seq::empty()
    } else {
        insert_desc(sort_desc(s.drop_last()), s.last())
    }
}

/// Taking entries in order, skipping paths already taken, and stopping once
/// `limit` are taken (at once when `limit` is 0).
pub open spec fn pick_state(s: Seq<RecentFileView>, limit: nat) -> (Seq<RecentFileView>, bool)
    decreases s.len(),
{
    if s.len() == 0 {
        (Seq::empty(), limit == 0)
    } else {
        let st = pick_state(s.drop_last(), limit);
        let x = s.last();
        if st.1 {
            st
        } else if exists|i: int| 0 <= i < st.0.len() && st.0[i].absolute_path == x.absolute_path {
            st
        } else {
            let r = st.0.push(x);
            (r, r.len() >= limit)
        }
    }
}

/// The ranked entries: candidates sorted newest first, the first entry per
/// absolute path, at most `limit` of them.
pub open spec fn spec_select_recent(cands: Seq<(i64, RecentFileView)>, limit: nat) -> Seq<RecentFileView> {
    pick_state(sort_desc(cands).map_values(|p: (i64, RecentFileView)| p.1), limit).0
}

proof fn lemma_insert_desc_at(s: Seq<(i64, RecentFileView)>, x: (i64, RecentFileView), j: int)
    requires
        0 <= j <= s.len(),
        forall|k: int| 0 <= k < j ==> s[k].0 >= x.0,
        j < s.len() ==> s[j].0 < x.0,
    ensures
        insert_desc(s, x) == s.insert(j, x),
    decreases s.len(),
{
    if s.len() == 0 {
        assert(s.insert(j, x) =~= seq![x]);
    } else if s[0].0 < x.0 {
        assert(j == 0);
        assert(s.insert(j, x) =~= seq![x] + s);
    } else {
        assert(j > 0);
        lemma_insert_desc_at(s.skip(1), x, j - 1);
        assert(s.insert(j, x) =~= seq![s[0]] + s.skip(1).insert(j - 1, x));
    }
}

fn sort_candidates(cands: &Vec<(i64, RecentFile)>) -> (r: Vec<(i64, RecentFile)>)
    ensures
        candidates_view(r@) == sort_desc(candidates_view(cands@)),
{
    let ghost cv = candidates_view(cands@);
    let mut sorted: Vec<(i64, RecentFile)> = Vec::new();
    let mut i: usize = 0;
    assert(candidates_view(sorted@) =~= sort_desc(cv.take(0)));
    while i < cands.len()
        invariant
            i <= cands.len(),
            cv == candidates_view(cands@),
            candidates_view(sorted@) == sort_desc(cv.take(i as int)),
        decreases cands.len() - i,
    {
        let ts = cands[i].0;
        let mut j: usize = 0;
        while j < sorted.len() && sorted[j].0 >= ts
            invariant
                j <= sorted.len(),
                forall|k: int| 0 <= k < j ==> sorted@[k].0 >= ts,
            decreases sorted.len() - j,
        {
            j = j + 1;
        }
        let ghost before = candidates_view(sorted@);
        let item = (ts, cands[i].1.copy());
        proof {
            assert(cv.take(i + 1).drop_last() =~= cv.take(i as int));
            assert(cv[i as int] == (item.0, item.1@));
            lemma_insert_desc_at(before, (item.0, item.1@), j as int);
        }
        sorted.insert(j, item);
        assert(candidates_view(sorted@) =~= before.insert(j as int, (item.0, item.1@)));
        i = i + 1;
    }
    assert(cv.take(cands.len() as int) =~= cv);
    sorted
}

proof fn lemma_pick_stops(s: Seq<RecentFileView>, limit: nat, k: int)
    requires
        0 <= k <= s.len(),
        pick_state(s.take(k), limit).1,
    ensures
        pick_state(s, limit) == pick_state(s.take(k), limit),
    decreases s.len() - k,
{
    if k < s.len() {
        assert(s.drop_last().take(k) =~= s.take(k));
        lemma_pick_stops(s.drop_last(), limit, k);
    } else {
        assert(s.take(k) =~= s);
    }
}

/// The recently touched files: the candidate entries ranked newest first, one
/// entry per absolute path, and at most `limit` entries.
pub fn get_recent_files(cands: &Vec<(i64, RecentFile)>, limit: usize) -> (r: Vec<RecentFile>)
    ensures
        r@.map_values(|f: RecentFile| f@) == spec_select_recent(candidates_view(cands@), limit as nat),
{
    let sorted = sort_candidates(cands);
    let ghost sv = sort_desc(candidates_view(cands@)).map_values(|p: (i64, RecentFileView)| p.1);
    let mut result: Vec<RecentFile> = Vec::new();
    if limit == 0 {
        proof {
            assert(pick_state(sv.take(0), 0).1);
            lemma_pick_stops(sv, 0, 0);
        }
        assert(result@.map_values(|f: RecentFile| f@) =~= pick_state(sv.take(0), 0).0);
        return result;
    }
    let mut i: usize = 0;
    assert(result@.map_values(|f: RecentFile| f@) =~= pick_state(sv.take(0), limit as nat).0);
    while i < sorted.len()
        invariant
            i <= sorted.len(),
            sv.len() == sorted.len(),
            sv == sort_desc(candidates_view(cands@)).map_values(|p: (i64, RecentFileView)| p.1),
            forall|k: int| 0 <= k < sorted.len() ==> #[trigger] sv[k] == sorted@[k].1@,
            result@.map_values(|f: RecentFile| f@) == pick_state(sv.take(i as int), limit as nat).0,
            !pick_state(sv.take(i as int), limit as nat).1,
        decreases sorted.len() - i,
    {
        let ghost rv = result@.map_values(|f: RecentFile| f@);
        let ghost x = sv[i as int];
        assert(sv.take(i + 1).drop_last() =~= sv.take(i as int));
        assert(sv.take(i + 1).last() == x);
        let path = to_chars(sorted[i].1.absolute_path.as_str());
        let mut k: usize = 0;
        let mut dup = false;
        while k < result.len()
            invariant
                k <= result.len(),
                rv == result@.map_values(|f: RecentFile| f@),
                path@ == x.absolute_path,
                !dup ==> forall|m: int| 0 <= m < k ==> rv[m].absolute_path != x.absolute_path,
                dup ==> exists|m: int| 0 <= m < rv.len() && rv[m].absolute_path == x.absolute_path,
            decreases result.len() - k,
        {
            let other = to_chars(result[k].absolute_path.as_str());
            if chars_eq(other.as_slice(), path.as_slice()) {
                assert(rv[k as int].absolute_path == x.absolute_path);
                dup = true;
            }
            k = k + 1;
        }
        if !dup {
            assert(!(exists|m: int| 0 <= m < rv.len() && rv[m].absolute_path == x.absolute_path));
            assert(pick_state(sv.take(i + 1), limit as nat).0 == rv.push(x));
            result.push(sorted[i].1.copy());
            assert(result@.map_values(|f: RecentFile| f@) =~= rv.push(x));
            if result.len() >= limit {
                proof {
                    assert(pick_state(sv.take(i + 1), limit as nat).1);
                    lemma_pick_stops(sv, limit as nat, i + 1);
                }
                return result;
            }
        }
        i = i + 1;
    }
    assert(sv.take(sorted.len() as int) =~= sv);
    result
}

// ---------------------------------------------------------------------------
// Laws of the ranking
// ---------------------------------------------------------------------------

/// Whether timestamps never increase along `s`.
pub open spec fn newest_first(s: Seq<(i64, RecentFileView)>) -> bool {
    forall|i: int, j: int| 0 <= i < j < s.len() ==> s[i].0 >= s[j].0
}

proof fn lemma_insert_desc_bound(s: Seq<(i64, RecentFileView)>, x: (i64, RecentFileView), b: i64)
    requires
        forall|k: int| 0 <= k < s.len() ==> s[k].0 <= b,
        x.0 <= b,
    ensures
        forall|k: int| 0 <= k < insert_desc(s, x).len() ==> insert_desc(s, x)[k].0 <= b,
        insert_desc(s, x).len() == s.len() + 1,
    decreases s.len(),
{
    if s.len() > 0 && s[0].0 >= x.0 {
        lemma_insert_desc_bound(s.skip(1), x, b);
        let t = insert_desc(s.skip(1), x);
        assert forall|k: int| 0 <= k < insert_desc(s, x).len() implies insert_desc(s, x)[k].0 <= b by {
            if k > 0 {
                assert(insert_desc(s, x)[k] == t[k - 1]);
            }
        }
    }
}

proof fn lemma_insert_desc_sorted(s: Seq<(i64, RecentFileView)>, x: (i64, RecentFileView))
    requires
        newest_first(s),
    ensures
        newest_first(insert_desc(s, x)),
    decreases s.len(),
{
    if s.len() > 0 {
        if s[0].0 < x.0 {
            let r = seq![x] + s;
            assert forall|i: int, j: int| 0 <= i < j < r.len() implies r[i].0 >= r[j].0 by {
                if i > 0 {
                    assert(r[i] == s[i - 1] && r[j] == s[j - 1]);
                } else {
                    assert(r[j] == s[j - 1]);
                    if j > 1 {
                        assert(s[0].0 >= s[j - 1].0);
                    }
                }
            }
        } else {
            let rest = s.skip(1);
            assert(newest_first(rest)) by {
                assert forall|i: int, j: int| 0 <= i < j < rest.len() implies rest[i].0 >= rest[j].0 by {
                    assert(rest[i] == s[i + 1] && rest[j] == s[j + 1]);
                }
            }
            lemma_insert_desc_sorted(rest, x);
            assert forall|k: int| 0 <= k < rest.len() implies rest[k].0 <= s[0].0 by {
                assert(rest[k] == s[k + 1]);
            }
            lemma_insert_desc_bound(rest, x, s[0].0);
            let t = insert_desc(rest, x);
            let r = insert_desc(s, x);
            assert forall|i: int, j: int| 0 <= i < j < r.len() implies r[i].0 >= r[j].0 by {
                assert(r[j] == t[j - 1]);
                if i > 0 {
                    assert(r[i] == t[i - 1]);
                }
            }
        }
    }
}

proof fn lemma_insert_desc_multiset(s: Seq<(i64, RecentFileView)>, x: (i64, RecentFileView))
    ensures
        insert_desc(s, x).to_multiset() =~= s.to_multiset().insert(x),
    decreases s.len(),
{
    broadcast use vstd::seq_lib::group_to_multiset_ensures;
    assert(seq![x] =~= Seq::<(i64, RecentFileView)>::empty().push(x));
    if s.len() == 0 {
    } else if s[0].0 < x.0 {
        vstd::seq_lib::lemma_multiset_commutative(seq![x], s);
    } else {
        let rest = s.skip(1);
        lemma_insert_desc_multiset(rest, x);
        assert(seq![s[0]] =~= Seq::<(i64, RecentFileView)>::empty().push(s[0]));
        vstd::seq_lib::lemma_multiset_commutative(seq![s[0]], insert_desc(rest, x));
        vstd::seq_lib::lemma_multiset_commutative(seq![s[0]], rest);
        assert(s =~= seq![s[0]] + rest);
    }
}

/// Law: the ranking order is the candidates rearranged (nothing added or
/// lost), newest first.
pub proof fn law_sort_is_newest_first_permutation(s: Seq<(i64, RecentFileView)>)
    ensures
        newest_first(sort_desc(s)),
        sort_desc(s).to_multiset() == s.to_multiset(),
    decreases s.len(),
{
    broadcast use vstd::seq_lib::group_to_multiset_ensures;
    if s.len() > 0 {
        law_sort_is_newest_first_permutation(s.drop_last());
        lemma_insert_desc_sorted(sort_desc(s.drop_last()), s.last());
        lemma_insert_desc_multiset(sort_desc(s.drop_last()), s.last());
        assert(s =~= s.drop_last().push(s.last()));
    } else {
        assert(s.to_multiset() =~= vstd::multiset::Multiset::empty());
        assert(sort_desc(s).to_multiset() =~= vstd::multiset::Multiset::empty());
    }
}

proof fn lemma_pick_state_shape(s: Seq<RecentFileView>, limit: nat)
    ensures
        ({
            let st = pick_state(s, limit);
            &&& forall|i: int, j: int|
                0 <= i < j < st.0.len() ==> st.0[i].absolute_path != st.0[j].absolute_path
            &&& !st.1 ==> st.0.len() < limit
            &&& st.0.len() <= limit
            &&& st.0.len() <= s.len()
        }),
    decreases s.len(),
{
    if s.len() > 0 {
        lemma_pick_state_shape(s.drop_last(), limit);
    }
}

/// Law: the ranked entries name distinct absolute paths, and there are at most
/// `limit` of them and no more than the candidates.
pub proof fn law_recent_distinct_and_bounded(cands: Seq<(i64, RecentFileView)>, limit: nat)
    ensures
        ({
            let r = spec_select_recent(cands, limit);
            &&& forall|i: int, j: int|
                0 <= i < j < r.len() ==> r[i].absolute_path != r[j].absolute_path
            &&& r.len() <= limit
            &&& r.len() <= cands.len()
        }),
{
    law_sort_is_newest_first_permutation(cands);
    let sv = sort_desc(cands).map_values(|p: (i64, RecentFileView)| p.1);
    assert(sort_desc(cands).len() == cands.len()) by {
        broadcast use vstd::seq_lib::group_to_multiset_ensures;
        assert(sort_desc(cands).to_multiset().len() == cands.to_multiset().len());
    }
    lemma_pick_state_shape(sv, limit);
}

/// The positions in `s` of the entries that `pick_state` takes, in order.
pub open spec fn pick_positions(s: Seq<RecentFileView>, limit: nat) -> Seq<int>
    decreases s.len(),
{
    if s.len() == 0 {
        Seq::empty()
    } else {
        let st = pick_state(s.drop_last(), limit);
        let p = pick_positions(s.drop_last(), limit);
        let x = s.last();
        if st.1 {
            p
        } else if exists|i: int| 0 <= i < st.0.len() && st.0[i].absolute_path == x.absolute_path {
            p
        } else {
            p.push(s.len() - 1)
        }
    }
}

proof fn lemma_pick_positions(s: Seq<RecentFileView>, limit: nat)
    ensures
        ({
            let st = pick_state(s, limit);
            let pos = pick_positions(s, limit);
            &&& pos.len() == st.0.len()
            &&& forall|i: int| 0 <= i < pos.len() ==> 0 <= #[trigger] pos[i] < s.len() && st.0[i] == s[pos[i]]
            &&& forall|i: int, j: int| 0 <= i < j < pos.len() ==> pos[i] < pos[j]
            &&& forall|i: int, k: int| #![trigger s[k], pos[i]] 0 <= i < pos.len() && 0 <= k < pos[i] ==>
                s[k].absolute_path != s[pos[i]].absolute_path
            &&& !st.1 ==> forall|k: int| 0 <= k < s.len() ==> exists|i: int|
                0 <= i < st.0.len() && #[trigger] st.0[i].absolute_path == (#[trigger] s[k]).absolute_path
            &&& st.1 ==> st.0.len() >= limit
        }),
    decreases s.len(),
{
    if s.len() > 0 {
        let d = s.drop_last();
        lemma_pick_positions(d, limit);
        let prev = pick_state(d, limit);
        let pp = pick_positions(d, limit);
        let st = pick_state(s, limit);
        let pos = pick_positions(s, limit);
        let x = s.last();
        let n = s.len() - 1;
        assert forall|k: int| 0 <= k < n implies s[k] == d[k] by {}
        if !prev.1 && !(exists|i: int| 0 <= i < prev.0.len() && prev.0[i].absolute_path == x.absolute_path) {
            assert(pos == pp.push(n));
            assert(st.0 == prev.0.push(x));
            assert forall|i: int| 0 <= i < pos.len() implies 0 <= #[trigger] pos[i] < s.len() && st.0[i] == s[pos[i]] by {
                if i < pp.len() {
                    assert(pos[i] == pp[i]);
                    assert(d[pp[i]] == s[pp[i]]);
                }
            }
            assert forall|i: int, k: int| #![trigger s[k], pos[i]] 0 <= i < pos.len() && 0 <= k < pos[i] implies
                s[k].absolute_path != s[pos[i]].absolute_path by {
                if i < pp.len() {
                    assert(pos[i] == pp[i]);
                    assert(d[pp[i]] == s[pp[i]] && d[k] == s[k]);
                } else {
                    assert(pos[i] == n);
                    if s[k].absolute_path == x.absolute_path {
                        assert(d[k] == s[k]);
                        let w = choose|w: int| 0 <= w < prev.0.len() && #[trigger] prev.0[w].absolute_path == (#[trigger] d[k]).absolute_path;
                        assert(prev.0[w].absolute_path == x.absolute_path);
                    }
                }
            }
            if !st.1 {
                assert forall|k: int| 0 <= k < s.len() implies exists|i: int|
                    0 <= i < st.0.len() && #[trigger] st.0[i].absolute_path == (#[trigger] s[k]).absolute_path by {
                    if k < n {
                        assert(d[k] == s[k]);
                        let w = choose|w: int| 0 <= w < prev.0.len() && #[trigger] prev.0[w].absolute_path == (#[trigger] d[k]).absolute_path;
                        assert(st.0[w] == prev.0[w]);
                    } else {
                        assert(st.0[prev.0.len() as int] == x);
                    }
                }
            }
        } else {
            assert(pos == pp);
            assert(st == prev);
            assert forall|i: int| 0 <= i < pos.len() implies 0 <= #[trigger] pos[i] < s.len() && st.0[i] == s[pos[i]] by {
                assert(d[pp[i]] == s[pp[i]]);
            }
            assert forall|i: int, k: int| #![trigger s[k], pos[i]] 0 <= i < pos.len() && 0 <= k < pos[i] implies
                s[k].absolute_path != s[pos[i]].absolute_path by {
                assert(d[pp[i]] == s[pp[i]] && d[k] == s[k]);
            }
            if !st.1 {
                assert forall|k: int| 0 <= k < s.len() implies exists|i: int|
                    0 <= i < st.0.len() && #[trigger] st.0[i].absolute_path == (#[trigger] s[k]).absolute_path by {
                    if k < n {
                        assert(d[k] == s[k]);
                        let w = choose|w: int| 0 <= w < prev.0.len() && #[trigger] prev.0[w].absolute_path == (#[trigger] d[k]).absolute_path;
                        assert(st.0[w] == prev.0[w]);
                    } else {
                        let w = choose|w: int| 0 <= w < prev.0.len() && prev.0[w].absolute_path == x.absolute_path;
                        assert(st.0[w].absolute_path == s[k].absolute_path);
                    }
                }
            }
        }
    }
}

/// Law: the recent files come newest first, each as the newest candidate of
/// its path (`pos` gives where each stands in the ranking); and while fewer
/// than the limit are listed, every candidate's path is listed.
pub proof fn law_recent_newest_per_path(cands: Seq<(i64, RecentFileView)>, limit: nat)
    ensures
        ({
            let sd = sort_desc(cands);
            let r = spec_select_recent(cands, limit);
            let pos = pick_positions(sd.map_values(|p: (i64, RecentFileView)| p.1), limit);
            &&& pos.len() == r.len()
            &&& forall|i: int| 0 <= i < r.len() ==> 0 <= #[trigger] pos[i] < sd.len() && sd[pos[i]].1 == r[i]
            &&& forall|i: int, j: int| 0 <= i < j < r.len() ==> sd[pos[i]].0 >= sd[pos[j]].0
            &&& forall|i: int, k: int| #![trigger r[i], cands[k]]
                0 <= i < r.len() && 0 <= k < cands.len() && cands[k].1.absolute_path == r[i].absolute_path
                    ==> cands[k].0 <= sd[pos[i]].0
            &&& r.len() < limit ==> forall|k: int| 0 <= k < cands.len() ==>
                exists|i: int| 0 <= i < r.len() && #[trigger] r[i].absolute_path == (#[trigger] cands[k]).1.absolute_path
        }),
{
    broadcast use vstd::seq_lib::group_to_multiset_ensures;
    let sd = sort_desc(cands);
    let sv = sd.map_values(|p: (i64, RecentFileView)| p.1);
    let r = spec_select_recent(cands, limit);
    let pos = pick_positions(sv, limit);
    law_sort_is_newest_first_permutation(cands);
    lemma_pick_positions(sv, limit);
    assert(sd.len() == cands.len()) by {
        assert(sd.to_multiset().len() == cands.to_multiset().len());
    }
    assert forall|k: int| 0 <= k < cands.len() implies exists|m: int| 0 <= m < sd.len() && #[trigger] sd[m] == #[trigger] cands[k] by {
        assert(cands.to_multiset().count(cands[k]) > 0);
        assert(sd.to_multiset().count(cands[k]) > 0);
        assert(sd.contains(cands[k]));
    }
    assert forall|i: int, j: int| 0 <= i < j < r.len() implies sd[pos[i]].0 >= sd[pos[j]].0 by {
        assert(pos[i] < pos[j]);
    }
    assert forall|i: int, k: int| #![trigger r[i], cands[k]]
        0 <= i < r.len() && 0 <= k < cands.len() && cands[k].1.absolute_path == r[i].absolute_path
            implies cands[k].0 <= sd[pos[i]].0 by {
        let m = choose|m: int| 0 <= m < sd.len() && #[trigger] sd[m] == cands[k];
        assert(sv[m] == sd[m].1);
        assert(sv[pos[i]] == r[i]);
        if m < pos[i] {
            assert(sv[m].absolute_path != sv[pos[i]].absolute_path);
        }
    }
    if r.len() < limit {
        assert forall|k: int| 0 <= k < cands.len() implies
            exists|i: int| 0 <= i < r.len() && #[trigger] r[i].absolute_path == (#[trigger] cands[k]).1.absolute_path by {
            let m = choose|m: int| 0 <= m < sd.len() && #[trigger] sd[m] == cands[k];
            assert(sv[m] == sd[m].1);
            let w = choose|w: int| 0 <= w < r.len() && #[trigger] r[w].absolute_path == (#[trigger] sv[m]).absolute_path;
            assert(r[w].absolute_path == cands[k].1.absolute_path);
        }
    }
}

// ---------------------------------------------------------------------------
// Entries from a repository's log
// ---------------------------------------------------------------------------

/// The file name shown for a repository-relative path: its last component,
/// or the whole path when it has none.
pub open spec fn display_name(rel: Seq<char>) -> Seq<char> {
    match file_name(rel) {
        Some(f) => f,
        None => rel,
    }
}

proof fn lemma_log_scan_nonneg(ls: Seq<Seq<char>>)
    ensures
        log_scan(ls).current matches Some(t) ==> t >= 0,
        forall|i: int| 0 <= i < log_scan(ls).entries.len() ==> #[trigger] log_scan(ls).entries[i].0 >= 0,
    decreases ls.len(),
{
    if ls.len() > 0 {
        lemma_log_scan_nonneg(ls.drop_last());
    }
}

/// The candidate entries of one repository from its `git log` output, seen at `now`.
pub open spec fn spec_log_candidates(
    out: Seq<char>,
    repo_path: Seq<char>,
    repo: Seq<char>,
    now: int,
    windows: bool,
) -> Seq<(i64, RecentFileView)> {
    log_entries_of(out).map_values(|e: (i64, Seq<char>)|
        (e.0, spec_recent_file(e.1, repo_path, repo, e.0 as int, now, windows)))
}

/// The candidate entries of one repository from its
/// `git log --diff-filter=AM --name-only --format=%ct -30` output, seen at
/// time `now` (seconds since the epoch).
pub fn log_candidates(out: &str, repo_path: &str, repo: &str, now: i64, windows: bool) -> (r: Vec<(i64, RecentFile)>)
    requires
        now >= 0,
    ensures
        candidates_view(r@) == spec_log_candidates(out@, repo_path@, repo@, now as int, windows),
{
    let entries = git_log_entries(out);
    proof { lemma_log_scan_nonneg(lines(out@)); }
    let ghost ev = entries.deep_view();
    let mut r: Vec<(i64, RecentFile)> = Vec::new();
    let mut i: usize = 0;
    while i < entries.len()
        invariant
            i <= entries.len(),
            now >= 0,
            ev == entries.deep_view(),
            ev == log_entries_of(out@),
            forall|k: int| 0 <= k < ev.len() ==> #[trigger] ev[k].0 >= 0,
            candidates_view(r@) == ev.take(i as int).map_values(|e: (i64, Seq<char>)|
                (e.0, spec_recent_file(e.1, repo_path@, repo@, e.0 as int, now as int, windows))),
        decreases entries.len() - i,
    {
        let (ts, rel) = (entries[i].0, &entries[i].1);
        assert(ev[i as int] == (ts, rel@));
        assert(ev[i as int].0 >= 0);
        let f = make_recent_file(rel.clone(), repo_path, repo, ts, now, windows);
        let ghost before = candidates_view(r@);
        r.push((ts, f));
        assert(candidates_view(r@) =~= before.push((ts, f@)));
        assert(ev.take(i + 1).map_values(|e: (i64, Seq<char>)|
            (e.0, spec_recent_file(e.1, repo_path@, repo@, e.0 as int, now as int, windows)))
            =~= ev.take(i as int).map_values(|e: (i64, Seq<char>)|
            (e.0, spec_recent_file(e.1, repo_path@, repo@, e.0 as int, now as int, windows))).push(
                (ts, f@)));
        i = i + 1;
    }
    assert(ev.take(entries.len() as int) =~= ev);
    r
}

} // verus!
