//! Which watched TCP ports have a listening process.
//!
//! The `netstat` / `lsof` / `ss` and `tasklist` runs and the process-table lookups happen
//! outside; this module reads their output and assembles the port report.
use vstd::prelude::*;
use crate::json::{decode_json_port_list, encode_json_port_list_pretty, json_port_list_value};
use crate::text::{
    contains_chars, contains_seq, has_prefix_at, lines, parse_unsigned, parse_unsigned_chars,
    slice_vec, split_lines, string_of, to_chars, trim, trim_chars, from_chars, is_ws,
    is_whitespace, before_char, before_char_chars, chars_eq,
};

verus! {

/// Default dev ports watched when the user has not customised the list.
pub const DEFAULT_PORTS: [u16; 8] = [3000, 3001, 5173, 5174, 8000, 8080, 4200, 9000];

/// The default ports, in order.
pub open spec fn default_ports() -> Seq<u16> {
    seq![3000u16, 3001u16, 5173u16, 5174u16, 8000u16, 8080u16, 4200u16, 9000u16]
}

/// The watched ports, from what reading the saved port list gave: that list,
/// or the default ports when nothing (readable) is saved.
pub open spec fn ports_choice(decoded: Option<Seq<u16>>) -> Seq<u16> {
    match decoded {
        Some(l) => l,
        None => default_ports(),
    }
}

/// The watched ports, from the text of the saved port list (`None` when there
/// is no readable file).
pub open spec fn spec_watched_ports(text: Option<Seq<char>>) -> Seq<u16> {
    match text {
        Some(t) => ports_choice(json_port_list_value(t)),
        None => default_ports(),
    }
}

/// Law: when no port list is saved, or the saved text reads as no port
/// list, the watched ports are 3000, 3001, 5173, 5174, 8000, 8080, 4200 and
/// 9000, in that order; a list that reads back is watched as it is.
pub proof fn law_default_ports(text: Option<Seq<char>>)
    ensures
        (text is None || json_port_list_value(text.unwrap()) is None) ==> spec_watched_ports(text)
            == seq![3000u16, 3001u16, 5173u16, 5174u16, 8000u16, 8080u16, 4200u16, 9000u16],
        (text is Some && json_port_list_value(text.unwrap()) is Some) ==> spec_watched_ports(text)
            == json_port_list_value(text.unwrap()).unwrap(),
{
}

/// The watched ports, from what reading the saved list gave.
pub fn ports_or_default(decoded: Option<Vec<u16>>) -> (r: Vec<u16>)
    ensures
        r@ == ports_choice(match decoded {
            Some(l) => Some(l@),
            None => None,
        }),
{
    match decoded {
        Some(l) => l,
        None => {
            let d = DEFAULT_PORTS;
            let mut v: Vec<u16> = Vec::new();
            let mut i: usize = 0;
            while i < 8
                invariant
                    i <= 8,
                    d@ == default_ports(),
                    v@ == d@.take(i as int),
                decreases 8 - i,
            {
                v.push(d[i]);
                assert(d@.take(i + 1) =~= v@);
                i = i + 1;
            }
            assert(d@.take(8) =~= d@);
            v
        },
    }
}

/// The watched ports: the saved port list, or the defaults.
pub fn watched_ports(text: Option<&str>) -> (r: Vec<u16>)
    ensures
        r@ == spec_watched_ports(match text {
            Some(t) => Some(t@),
            None => None,
        }),
{
    match text {
        Some(t) => ports_or_default(decode_json_port_list(t)),
        None => ports_or_default(None),
    }
}

/// The text of the saved port list for `ports`; it reads back as `ports`.
pub fn watched_ports_config(ports: &Vec<u16>) -> (r: String)
    ensures
        spec_watched_ports(Some(r@)) == ports@,
{
    match encode_json_port_list_pretty(ports.as_slice()) {
        Some(t) => t,
        None => String::new(),
    }
}

/// The state of one watched port.
pub struct PortInfo {
    pub port: u16,
    /// Something is listening on the port.
    pub in_use: bool,
    pub process_name: Option<String>,
    pub pid: Option<u32>,
}

pub struct PortInfoView {
    pub port: u16,
    pub in_use: bool,
    pub process_name: Option<Seq<char>>,
    pub pid: Option<u32>,
}

impl View for PortInfo {
    type V = PortInfoView;

    open spec fn view(&self) -> PortInfoView {
        PortInfoView {
            port: self.port,
            in_use: self.in_use,
            process_name: match self.process_name {
                Some(n) => Some(n@),
                None => None,
            },
            pid: self.pid,
        }
    }
}

/// A port found listening, with the process that holds it.
pub struct ListeningPort {
    pub port: u16,
    pub pid: u32,
    pub process_name: String,
}

pub struct ListeningPortView {
    pub port: u16,
    pub pid: u32,
    pub process_name: Seq<char>,
}

impl View for ListeningPort {
    type V = ListeningPortView;

    open spec fn view(&self) -> ListeningPortView {
        ListeningPortView { port: self.port, pid: self.pid, process_name: self.process_name@ }
    }
}

// ---------------------------------------------------------------------------
// Addresses
// ---------------------------------------------------------------------------

/// The index of the last `c` in `s`.
pub open spec fn last_index_of(s: Seq<char>, c: char) -> Option<int>
    decreases s.len(),
{
    if s.len() == 0 {
        None
    } else if s.last() == c {
        Some(s.len() - 1)
    } else {
        last_index_of(s.drop_last(), c)
    }
}

/// The port of a local address such as `0.0.0.0:3000` or `[::]:3000`: what
/// follows the last `:`, read as a `u16`.
pub open spec fn spec_parse_port(addr: Seq<char>) -> Option<u16> {
    match last_index_of(addr, ':') {
        Some(i) => match parse_unsigned(addr.skip(i + 1), 65535) {
            Some(n) => Some(n as u16),
            None => None,
        },
        None => None,
    }
}

proof fn lemma_last_index_bounds(s: Seq<char>, c: char)
    ensures
        last_index_of(s, c) matches Some(i) ==> 0 <= i < s.len() && s[i] == c,
    decreases s.len(),
{
    if s.len() > 0 && s.last() != c {
        lemma_last_index_bounds(s.drop_last(), c);
    }
}

fn parse_port_chars(v: &[char]) -> (r: Option<u16>)
    ensures
        r == spec_parse_port(v@),
{
    let mut i = v.len();
    assert(v@.take(v.len() as int) =~= v@);
    while i > 0
        invariant
            i <= v.len(),
            last_index_of(v@, ':') == last_index_of(v@.take(i as int), ':'),
        decreases i,
    {
        assert(v@.take(i as int).drop_last() =~= v@.take(i - 1));
        if v[i - 1] == ':' {
            assert(v@.skip(i as int) =~= v@.subrange(i as int, v@.len() as int));
            return match parse_unsigned_chars(v, i, v.len(), 65535) {
                Some(n) => Some(n as u16),
                None => None,
            };
        }
        i = i - 1;
    }
    None
}

/// The port of a local address: what follows its last `:`, as a `u16`
/// (`addr.rfind(':')` then `parse::<u16>()`).
pub fn parse_port(addr: &str) -> (r: Option<u16>)
    ensures
        r == spec_parse_port(addr@),
{
    let v = to_chars(addr);
    parse_port_chars(v.as_slice())
}

// ---------------------------------------------------------------------------
// Words
// ---------------------------------------------------------------------------

/// Reading `s` from the left: the words completed so far and the current one.
pub open spec fn word_state(s: Seq<char>) -> (Seq<Seq<char>>, Seq<char>)
    decreases s.len(),
{
    if s.len() == 0 {
        (Seq::empty(), Seq::empty())
    } else {
        let st = word_state(s.drop_last());
        if is_ws(s.last()) {
            if st.1.len() > 0 {
                (st.0.push(st.1), Seq::empty())
            } else {
                st
            }
        } else {
            (st.0, st.1.push(s.last()))
        }
    }
}

/// The whitespace-separated words of `s` (`str::split_whitespace`).
pub open spec fn words(s: Seq<char>) -> Seq<Seq<char>> {
    let st = word_state(s);
    if st.1.len() > 0 {
        st.0.push(st.1)
    } else {
        st.0
    }
}

/// The whitespace-separated words of a text.
pub fn split_words(v: &Vec<char>) -> (r: Vec<Vec<char>>)
    ensures
        r.deep_view() == words(v@),
{
    let mut done: Vec<Vec<char>> = Vec::new();
    let mut cur: Vec<char> = Vec::new();
    let mut i: usize = 0;
    while i < v.len()
        invariant
            i <= v.len(),
            done.deep_view() == word_state(v@.take(i as int)).0,
            cur@ == word_state(v@.take(i as int)).1,
        decreases v.len() - i,
    {
        let c = v[i];
        assert(v@.take(i + 1).drop_last() =~= v@.take(i as int));
        if is_whitespace(c) {
            if cur.len() > 0 {
                let ghost old_done = done.deep_view();
                let ghost cv = cur@;
                assert(cur.deep_view() =~= cv);
                done.push(cur);
                assert(done.deep_view() =~= old_done.push(cv));
                cur = Vec::new();
            }
        } else {
            cur.push(c);
        }
        i = i + 1;
    }
    assert(v@.take(v.len() as int) =~= v@);
    if cur.len() > 0 {
        let ghost old_done = done.deep_view();
        let ghost cv = cur@;
        assert(cur.deep_view() =~= cv);
        done.push(cur);
        assert(done.deep_view() =~= old_done.push(cv));
    }
    done
}

// ---------------------------------------------------------------------------
// netstat
// ---------------------------------------------------------------------------

/// The `(port, pid)` a `netstat -ano -p tcp` line reports: a line mentioning
/// `LISTENING` with at least five words, a watched port in its second word
/// and a pid in its last.
pub open spec fn netstat_entry(line: Seq<char>, watch: Seq<u16>) -> Option<(u16, u32)> {
    let t = trim(line);
    let ws = words(t);
    if !contains_seq(t, "LISTENING"@) || ws.len() < 5 {
        None
    } else {
        match (spec_parse_port(ws[1]), parse_unsigned(ws.last(), u32::MAX as nat)) {
            (Some(p), Some(pid)) => if watch.contains(p) {
                Some((p, pid as u32))
            } else {
                None
            },
            _ => None,
        }
    }
}

/// Whether `port` is already recorded.
pub open spec fn has_port(acc: Seq<(u16, u32)>, port: u16) -> bool {
    exists|i: int| 0 <= i < acc.len() && acc[i].0 == port
}

/// The program whose output lists the listening sockets: `netstat -ano -p tcp`
/// on Windows, `lsof -nP -iTCP -sTCP:LISTEN` on macOS, `ss -ltnp` on Linux.
pub enum ListenTool {
    Netstat,
    Lsof,
    Ss,
}

/// The `(port, pid)` an `lsof -nP -iTCP -sTCP:LISTEN` line reports: a line of
/// at least ten words ending in `(LISTEN)`, a watched port in its address
/// (the word before that) and a pid in its second word.
pub open spec fn lsof_entry(line: Seq<char>, watch: Seq<u16>) -> Option<(u16, u32)> {
    let ws = words(trim(line));
    if ws.len() < 10 || ws.last() != "(LISTEN)"@ {
        None
    } else {
        match (spec_parse_port(ws[ws.len() - 2]), parse_unsigned(ws[1], u32::MAX as nat)) {
            (Some(p), Some(pid)) => if watch.contains(p) { Some((p, pid as u32)) } else { None },
            _ => None,
        }
    }
}

/// What follows the first `pid=` in `s`.
pub open spec fn after_pid(s: Seq<char>) -> Option<Seq<char>>
    decreases s.len(),
{
    if s.len() < 4 {
        None
    } else if s.take(4) == "pid="@ {
        Some(s.skip(4))
    } else {
        after_pid(s.skip(1))
    }
}

/// The `(port, pid)` an `ss -ltnp` line reports: a line of at least six words
/// starting with `LISTEN`, a watched port in its fourth word (the local
/// address) and a pid in its process column (the digits after the first
/// `pid=`, up to the next `,`).
pub open spec fn ss_entry(line: Seq<char>, watch: Seq<u16>) -> Option<(u16, u32)> {
    let t = trim(line);
    let ws = words(t);
    if ws.len() < 6 || ws[0] != "LISTEN"@ {
        None
    } else {
        match (spec_parse_port(ws[3]), after_pid(t)) {
            (Some(p), Some(rest)) => match parse_unsigned(before_char(rest, ','), u32::MAX as nat) {
                Some(pid) => if watch.contains(p) { Some((p, pid as u32)) } else { None },
                None => None,
            },
            _ => None,
        }
    }
}

/// The `(port, pid)` a line of the tool's output reports.
pub open spec fn listen_entry(tool: ListenTool, line: Seq<char>, watch: Seq<u16>) -> Option<(u16, u32)> {
    match tool {
        ListenTool::Netstat => netstat_entry(line, watch),
        ListenTool::Lsof => lsof_entry(line, watch),
        ListenTool::Ss => ss_entry(line, watch),
    }
}

/// The listening `(port, pid)` pairs of the lines, the first one per port.
pub open spec fn listening_of(tool: ListenTool, ls: Seq<Seq<char>>, watch: Seq<u16>) -> Seq<(u16, u32)>
    decreases ls.len(),
{
    if ls.len() == 0 {
        Seq::empty()
    } else {
        let acc = listening_of(tool, ls.drop_last(), watch);
        match listen_entry(tool, ls.last(), watch) {
            Some(e) => if has_port(acc, e.0) {
                acc
            } else {
                acc.push(e)
            },
            None => acc,
        }
    }
}

/// Law: the listening ports found are watched ports, each listed once.
pub proof fn law_listening_distinct_watched(tool: ListenTool, ls: Seq<Seq<char>>, watch: Seq<u16>)
    ensures
        forall|i: int| 0 <= i < listening_of(tool, ls, watch).len() ==> watch.contains(#[trigger] listening_of(tool, ls, watch)[i].0),
        forall|i: int, j: int| 0 <= i < j < listening_of(tool, ls, watch).len() ==>
            (#[trigger] listening_of(tool, ls, watch)[i]).0 != (#[trigger] listening_of(tool, ls, watch)[j]).0,
    decreases ls.len(),
{
    if ls.len() > 0 {
        law_listening_distinct_watched(tool, ls.drop_last(), watch);
        let acc = listening_of(tool, ls.drop_last(), watch);
        let r = listening_of(tool, ls, watch);
        if let Some(e) = listen_entry(tool, ls.last(), watch) {
            if !has_port(acc, e.0) {
                assert(r == acc.push(e));
                assert forall|i: int| 0 <= i < r.len() implies watch.contains(#[trigger] r[i].0) by {
                    if i < acc.len() {
                        assert(r[i] == acc[i]);
                    }
                }
                assert forall|i: int, j: int| 0 <= i < j < r.len() implies (#[trigger] r[i]).0 != (#[trigger] r[j]).0 by {
                    assert(r[i] == acc[i]);
                    if j < acc.len() {
                        assert(r[j] == acc[j]);
                    }
                }
            }
        }
    }
}

fn netstat_line_entry(line: &Vec<char>, watch: &[u16], listening_word: &Vec<char>) -> (r: Option<(u16, u32)>)
    requires
        listening_word@ == "LISTENING"@,
    ensures
        r == netstat_entry(line@, watch@),
{
    let t = trim_chars(line);
    if !contains_chars(t.as_slice(), listening_word.as_slice()) {
        return None;
    }
    let ws = split_words(&t);
    if ws.len() < 5 {
        return None;
    }
    let ghost wv = ws.deep_view();
    assert(ws[1]@ =~= wv[1]);
    assert(ws[ws.len() - 1]@ =~= wv.last());
    let port = parse_port_chars(ws[1].as_slice());
    let last = &ws[ws.len() - 1];
    let pid = parse_unsigned_chars(last.as_slice(), 0, last.len(), 4294967295u64);
    assert(last@.subrange(0, last@.len() as int) =~= last@);
    match (port, pid) {
        (Some(p), Some(pid)) => {
            assert(netstat_entry(line@, watch@) == (if watch@.contains(p) {
                Some((p, pid as u32))
            } else {
                None
            }));
            let mut k: usize = 0;
            while k < watch.len()
                invariant
                    k <= watch.len(),
                    pid <= u32::MAX,
                    netstat_entry(line@, watch@) == (if watch@.contains(p) {
                        Some((p, pid as u32))
                    } else {
                        None
                    }),
                    forall|j: int| 0 <= j < k ==> watch@[j] != p,
                decreases watch.len() - k,
            {
                if watch[k] == p {
                    assert(watch@.contains(p));
                    return Some((p, pid as u32));
                }
                k = k + 1;
            }
            None
        },
        _ => None,
    }
}

fn is_watched(watch: &[u16], p: u16) -> (r: bool)
    ensures
        r == watch@.contains(p),
{
    let mut k: usize = 0;
    while k < watch.len()
        invariant
            k <= watch.len(),
            forall|j: int| 0 <= j < k ==> watch@[j] != p,
        decreases watch.len() - k,
    {
        if watch[k] == p {
            assert(watch@[k as int] == p);
            return true;
        }
        k = k + 1;
    }
    false
}

fn lsof_line_entry(line: &Vec<char>, watch: &[u16]) -> (r: Option<(u16, u32)>)
    ensures
        r == lsof_entry(line@, watch@),
{
    let t = trim_chars(line);
    let ws = split_words(&t);
    let ghost wv = ws.deep_view();
    if ws.len() < 10 {
        return None;
    }
    let n = ws.len();
    let listen = to_chars("(LISTEN)");
    assert(ws[n - 1]@ =~= wv.last());
    if !chars_eq(ws[n - 1].as_slice(), listen.as_slice()) {
        return None;
    }
    assert(ws[n - 2]@ =~= wv[n - 2]);
    assert(ws[1]@ =~= wv[1]);
    let port = parse_port_chars(ws[n - 2].as_slice());
    let pw = &ws[1];
    let pid = parse_unsigned_chars(pw.as_slice(), 0, pw.len(), 4294967295u64);
    assert(pw@.subrange(0, pw@.len() as int) =~= pw@);
    match (port, pid) {
        (Some(p), Some(pid)) => if is_watched(watch, p) { Some((p, pid as u32)) } else { None },
        _ => None,
    }
}

fn after_pid_chars(t: &Vec<char>) -> (r: Option<Vec<char>>)
    ensures
        match after_pid(t@) {
            Some(s) => r matches Some(v) && v@ == s,
            None => r is None,
        },
{
    let key = to_chars("pid=");
    proof {
        reveal_strlit("pid=");
    }
    let mut j: usize = 0;
    assert(t@.skip(0) =~= t@);
    while t.len() - j >= 4
        invariant
            j <= t.len(),
            key@ == "pid="@,
            key@.len() == 4,
            after_pid(t@) == after_pid(t@.skip(j as int)),
        decreases t.len() - j,
    {
        let ghost u = t@.skip(j as int);
        if has_prefix_at(t.as_slice(), j, key.as_slice()) {
            assert(u.take(4) =~= t@.subrange(j as int, j + 4));
            let r = slice_vec(t, j + 4, t.len());
            assert(r@ =~= u.skip(4));
            return Some(r);
        }
        assert(u.take(4) =~= t@.subrange(j as int, j + 4));
        assert(u.skip(1) =~= t@.skip(j + 1));
        j = j + 1;
    }
    None
}

fn ss_line_entry(line: &Vec<char>, watch: &[u16]) -> (r: Option<(u16, u32)>)
    ensures
        r == ss_entry(line@, watch@),
{
    let t = trim_chars(line);
    let ws = split_words(&t);
    let ghost wv = ws.deep_view();
    if ws.len() < 6 {
        return None;
    }
    let listen = to_chars("LISTEN");
    assert(ws[0]@ =~= wv[0]);
    if !chars_eq(ws[0].as_slice(), listen.as_slice()) {
        return None;
    }
    assert(ws[3]@ =~= wv[3]);
    let port = parse_port_chars(ws[3].as_slice());
    let rest = after_pid_chars(&t);
    match (port, rest) {
        (Some(p), Some(rest)) => {
            let digits = before_char_chars(&rest, ',');
            assert(digits@.subrange(0, digits@.len() as int) =~= digits@);
            match parse_unsigned_chars(digits.as_slice(), 0, digits.len(), 4294967295u64) {
                Some(pid) => if is_watched(watch, p) { Some((p, pid as u32)) } else { None },
                None => None,
            }
        },
        _ => None,
    }
}

fn listen_line_entry(tool: &ListenTool, line: &Vec<char>, watch: &[u16], listening_word: &Vec<char>) -> (r: Option<(u16, u32)>)
    requires
        listening_word@ == "LISTENING"@,
    ensures
        r == listen_entry(*tool, line@, watch@),
{
    match tool {
        ListenTool::Netstat => netstat_line_entry(line, watch, listening_word),
        ListenTool::Lsof => lsof_line_entry(line, watch),
        ListenTool::Ss => ss_line_entry(line, watch),
    }
}

/// The watched ports the listing tool's output shows listening,
/// each with the pid of its first listening line, in order of first appearance.
pub fn parse_listening_ports(netstat_output: &str, watch: &[u16], tool: &ListenTool) -> (r: Vec<(u16, u32)>)
    ensures
        r@ == listening_of(*tool, lines(netstat_output@), watch@),
{
    let listening_word = to_chars("LISTENING");
    let chars = to_chars(netstat_output);
    let ls = split_lines(&chars);
    let ghost lv = ls.deep_view();
    let mut acc: Vec<(u16, u32)> = Vec::new();
    let mut i: usize = 0;
    while i < ls.len()
        invariant
            i <= ls.len(),
            lv == ls.deep_view(),
            lv == lines(netstat_output@),
            listening_word@ == "LISTENING"@,
            acc@ == listening_of(*tool, lv.take(i as int), watch@),
        decreases ls.len() - i,
    {
        assert(lv.take(i + 1).drop_last() =~= lv.take(i as int));
        assert(ls[i as int]@ =~= lv[i as int]);
        match listen_line_entry(tool, &ls[i], watch, &listening_word) {
            Some(e) => {
                let mut k: usize = 0;
                let mut dup = false;
                while k < acc.len()
                    invariant
                        k <= acc.len(),
                        !dup ==> forall|j: int| 0 <= j < k ==> acc@[j].0 != e.0,
                        dup ==> has_port(acc@, e.0),
                    decreases acc.len() - k,
                {
                    if acc[k].0 == e.0 {
                        dup = true;
                    }
                    k = k + 1;
                }
                if !dup {
                    acc.push(e);
                }
            },
            None => {},
        }
        i = i + 1;
    }
    assert(lv.take(ls.len() as int) =~= lv);
    acc
}

// ---------------------------------------------------------------------------
// Port report
// ---------------------------------------------------------------------------

/// The first listening entry for `port`.
pub open spec fn find_listening(ls: Seq<ListeningPortView>, port: u16) -> Option<ListeningPortView>
    decreases ls.len(),
{
    if ls.len() == 0 {
        None
    } else if ls[0].port == port {
        Some(ls[0])
    } else {
        find_listening(ls.skip(1), port)
    }
}

/// The report for one watched port.
pub open spec fn spec_port_info(port: u16, ls: Seq<ListeningPortView>) -> PortInfoView {
    match find_listening(ls, port) {
        Some(l) => PortInfoView {
            port: port,
            in_use: true,
            process_name: Some(l.process_name),
            pid: Some(l.pid),
        },
        None => PortInfoView { port: port, in_use: false, process_name: None, pid: None },
    }
}

pub open spec fn listening_view(ls: Seq<ListeningPort>) -> Seq<ListeningPortView> {
    ls.map_values(|l: ListeningPort| l@)
}

/// One report per watched port, in the order given: in use with the process
/// found listening on it, or free.
pub fn get_port_status_for(ports: &[u16], listening: &Vec<ListeningPort>) -> (r: Vec<PortInfo>)
    ensures
        r@.map_values(|p: PortInfo| p@) == ports@.map_values(
            |p: u16| spec_port_info(p, listening_view(listening@)),
        ),
{
    let ghost lv = listening_view(listening@);
    let mut out: Vec<PortInfo> = Vec::new();
    let mut i: usize = 0;
    while i < ports.len()
        invariant
            i <= ports.len(),
            lv == listening_view(listening@),
            out@.map_values(|p: PortInfo| p@) == ports@.take(i as int).map_values(
                |p: u16| spec_port_info(p, lv),
            ),
        decreases ports.len() - i,
    {
        let port = ports[i];
        let mut k: usize = 0;
        assert(lv.skip(0) =~= lv);
        while k < listening.len() && listening[k].port != port
            invariant
                k <= listening.len(),
                lv == listening_view(listening@),
                find_listening(lv, port) == find_listening(lv.skip(k as int), port),
            decreases listening.len() - k,
        {
            assert(lv.skip(k as int).skip(1) =~= lv.skip(k + 1));
            k = k + 1;
        }
        let info = if k < listening.len() {
            assert(lv.skip(k as int)[0] == listening@[k as int]@);
            PortInfo {
                port,
                in_use: true,
                process_name: Some(listening[k].process_name.clone()),
                pid: Some(listening[k].pid),
            }
        } else {
            PortInfo { port, in_use: false, process_name: None, pid: None }
        };
        let ghost before = out@.map_values(|p: PortInfo| p@);
        out.push(info);
        assert(out@.map_values(|p: PortInfo| p@) =~= before.push(spec_port_info(port, lv)));
        assert(ports@.take(i + 1).map_values(|p: u16| spec_port_info(p, lv)) =~= ports@.take(
            i as int,
        ).map_values(|p: u16| spec_port_info(p, lv)).push(spec_port_info(port, lv)));
        i = i + 1;
    }
    assert(ports@.take(ports.len() as int) =~= ports@);
    out
}

/// The report for the watched ports: those of the saved port list
/// (`saved_ports` is the text of that file, `None` when there is no readable
/// one), or the default ports.
pub fn get_port_status(saved_ports: Option<&str>, listening: &Vec<ListeningPort>) -> (r: Vec<PortInfo>)
    ensures
        r@.map_values(|p: PortInfo| p@) == spec_watched_ports(match saved_ports {
            Some(t) => Some(t@),
            None => None,
        }).map_values(|p: u16| spec_port_info(p, listening_view(listening@))),
{
    let ports = watched_ports(saved_ports);
    get_port_status_for(ports.as_slice(), listening)
}

/// Law: the report has one entry per watched port, in the same order, and a
/// port is in use exactly when something was found listening on it.
pub proof fn law_one_report_per_port(ports: Seq<u16>, ls: Seq<ListeningPortView>)
    ensures
        ({
            let r = ports.map_values(|p: u16| spec_port_info(p, ls));
            &&& r.len() == ports.len()
            &&& forall|i: int| 0 <= i < r.len() ==> #[trigger] r[i].port == ports[i]
            &&& forall|i: int| 0 <= i < r.len() ==> (r[i].in_use <==> find_listening(ls, ports[i]) is Some)
        }),
{
}

proof fn lemma_find_first(ls: Seq<ListeningPortView>, p: u16)
    ensures
        find_listening(ls, p) matches Some(x) ==> exists|k: int|
            0 <= k < ls.len() && ls[k] == x && ls[k].port == p
                && forall|j: int| 0 <= j < k ==> (#[trigger] ls[j]).port != p,
        find_listening(ls, p) is None ==> forall|k: int| 0 <= k < ls.len() ==> (#[trigger] ls[k]).port != p,
    decreases ls.len(),
{
    if ls.len() > 0 {
        let t = ls.skip(1);
        lemma_find_first(t, p);
        if ls[0].port != p {
            if let Some(x) = find_listening(t, p) {
                let k = choose|k: int| 0 <= k < t.len() && t[k] == x && t[k].port == p
                    && forall|j: int| 0 <= j < k ==> (#[trigger] t[j]).port != p;
                assert(ls[k + 1] == x);
                assert forall|j: int| 0 <= j < k + 1 implies (#[trigger] ls[j]).port != p by {
                    if j > 0 {
                        assert(ls[j] == t[j - 1]);
                    }
                }
            } else {
                assert forall|k: int| 0 <= k < ls.len() implies (#[trigger] ls[k]).port != p by {
                    if k > 0 {
                        assert(ls[k] == t[k - 1]);
                    }
                }
            }
        }
    }
}

/// Law: a port in use is reported with the pid and process name of the first
/// listening entry on that same port; a free port has no listening entry at
/// all, and is reported with no pid and no process name.
pub proof fn law_report_names_its_listener(ls: Seq<ListeningPortView>)
    ensures
        forall|p: u16| #![trigger spec_port_info(p, ls)]
            spec_port_info(p, ls).port == p
            && (spec_port_info(p, ls).in_use ==> exists|k: int| 0 <= k < ls.len() && ls[k].port == p
                && (forall|j: int| 0 <= j < k ==> (#[trigger] ls[j]).port != p)
                && spec_port_info(p, ls).pid == Some(ls[k].pid)
                && spec_port_info(p, ls).process_name == Some(ls[k].process_name))
            && (!spec_port_info(p, ls).in_use ==> spec_port_info(p, ls).pid is None
                && spec_port_info(p, ls).process_name is None
                && forall|k: int| 0 <= k < ls.len() ==> (#[trigger] ls[k]).port != p),
{
    assert forall|p: u16| #![trigger spec_port_info(p, ls)]
        spec_port_info(p, ls).port == p
        && (spec_port_info(p, ls).in_use ==> exists|k: int| 0 <= k < ls.len() && ls[k].port == p
            && (forall|j: int| 0 <= j < k ==> (#[trigger] ls[j]).port != p)
            && spec_port_info(p, ls).pid == Some(ls[k].pid)
            && spec_port_info(p, ls).process_name == Some(ls[k].process_name))
        && (!spec_port_info(p, ls).in_use ==> spec_port_info(p, ls).pid is None
            && spec_port_info(p, ls).process_name is None
            && forall|k: int| 0 <= k < ls.len() ==> (#[trigger] ls[k]).port != p) by {
        lemma_find_first(ls, p);
    }
}

// ---------------------------------------------------------------------------
// tasklist
// ---------------------------------------------------------------------------

/// `s` without leading `"` characters.
pub open spec fn strip_quotes_start(s: Seq<char>) -> Seq<char>
    decreases s.len(),
{
    if s.len() > 0 && s[0] == '"' {
        strip_quotes_start(s.skip(1))
    } else {
        s
    }
}

/// `s` without trailing `"` characters.
pub open spec fn strip_quotes_end(s: Seq<char>) -> Seq<char>
    decreases s.len(),
{
    if s.len() > 0 && s.last() == '"' {
        strip_quotes_end(s.drop_last())
    } else {
        s
    }
}

/// The part of `s` before its first `"`.
pub open spec fn before_quote(s: Seq<char>) -> Seq<char>
    decreases s.len(),
{
    if s.len() == 0 || s[0] == '"' {
        Seq::empty()
    } else {
        seq![s[0]] + before_quote(s.skip(1))
    }
}

/// The image name a `tasklist /FO CSV /NH` line gives: the line trimmed and
/// stripped of quotes, unless empty or an `INFO:` message, up to its first quote.
pub open spec fn tasklist_line_name(line: Seq<char>) -> Option<Seq<char>> {
    let t = strip_quotes_end(strip_quotes_start(trim(line)));
    if t.len() > 0 && !(t.len() >= 5 && t.take(5) == "INFO:"@) {
        let n = before_quote(t);
        if n.len() > 0 {
            Some(n)
        } else {
            None
        }
    } else {
        None
    }
}

/// The name from the first line that gives one.
pub open spec fn tasklist_name_of(ls: Seq<Seq<char>>) -> Option<Seq<char>>
    decreases ls.len(),
{
    if ls.len() == 0 {
        None
    } else {
        match tasklist_line_name(ls[0]) {
            Some(n) => Some(n),
            None => tasklist_name_of(ls.skip(1)),
        }
    }
}

proof fn lemma_strip_start_skip(s: Seq<char>, k: int)
    requires
        0 <= k <= s.len(),
        forall|j: int| 0 <= j < k ==> s[j] == '"',
    ensures
        strip_quotes_start(s) == strip_quotes_start(s.skip(k)),
    decreases k,
{
    if k > 0 {
        assert(s.skip(1).skip(k - 1) =~= s.skip(k));
        lemma_strip_start_skip(s.skip(1), k - 1);
    } else {
        assert(s.skip(0) =~= s);
    }
}

proof fn lemma_strip_end_take(s: Seq<char>, k: int)
    requires
        0 <= k <= s.len(),
        forall|j: int| k <= j < s.len() ==> s[j] == '"',
    ensures
        strip_quotes_end(s) == strip_quotes_end(s.take(k)),
    decreases s.len() - k,
{
    if k < s.len() {
        assert(s.drop_last().take(k) =~= s.take(k));
        lemma_strip_end_take(s.drop_last(), k);
    } else {
        assert(s.take(k) =~= s);
    }
}

proof fn lemma_before_quote(s: Seq<char>, k: int)
    requires
        0 <= k <= s.len(),
        forall|j: int| 0 <= j < k ==> s[j] != '"',
        k < s.len() ==> s[k] == '"',
    ensures
        before_quote(s) == s.take(k),
    decreases k,
{
    if k > 0 {
        lemma_before_quote(s.skip(1), k - 1);
        assert(s.take(k) =~= seq![s[0]] + s.skip(1).take(k - 1));
    } else {
        assert(s.take(0) =~= Seq::<char>::empty());
    }
}

fn tasklist_line(line: &Vec<char>, info: &Vec<char>) -> (r: Option<Vec<char>>)
    requires
        info@ == "INFO:"@,
    ensures
        match tasklist_line_name(line@) {
            Some(n) => r matches Some(v) && v@ == n,
            None => r is None,
        },
{
    let t0 = trim_chars(line);
    let mut a: usize = 0;
    while a < t0.len() && t0[a] == '"'
        invariant
            a <= t0.len(),
            forall|j: int| 0 <= j < a ==> t0@[j] == '"',
        decreases t0.len() - a,
    {
        a = a + 1;
    }
    proof {
        lemma_strip_start_skip(t0@, a as int);
        assert(strip_quotes_start(t0@.skip(a as int)) == t0@.skip(a as int));
    }
    let mut b: usize = t0.len();
    while b > a && t0[b - 1] == '"'
        invariant
            a <= b <= t0.len(),
            forall|j: int| b <= j < t0.len() ==> t0@[j] == '"',
        decreases b - a,
    {
        b = b - 1;
    }
    let t = slice_vec(&t0, a, b);
    proof {
        let u = t0@.skip(a as int);
        assert forall|j: int| b - a <= j < u.len() implies u[j] == '"' by {
            assert(u[j] == t0@[a + j]);
        }
        lemma_strip_end_take(u, b - a);
        assert(u.take(b - a) =~= t@);
    }
    if t.len() == 0 {
        return None;
    }
    proof { reveal_strlit("INFO:"); }
    if has_prefix_at(t.as_slice(), 0, info.as_slice()) {
        assert(t@.subrange(0, 5) =~= t@.take(5));
        return None;
    }
    assert(!(t@.len() >= 5 && t@.take(5) == "INFO:"@)) by {
        if t@.len() >= 5 && t@.take(5) == "INFO:"@ {
            assert(t@.subrange(0, 5) =~= t@.take(5));
        }
    }
    let mut k: usize = 0;
    while k < t.len() && t[k] != '"'
        invariant
            k <= t.len(),
            forall|j: int| 0 <= j < k ==> t@[j] != '"',
        decreases t.len() - k,
    {
        k = k + 1;
    }
    proof { lemma_before_quote(t@, k as int); }
    if k == 0 {
        return None;
    }
    Some(slice_vec(&t, 0, k))
}

/// The process image name in a `tasklist /FI "PID eq N" /NH /FO CSV` output.
pub fn parse_tasklist_name(output: &str) -> (r: Option<String>)
    ensures
        match tasklist_name_of(lines(output@)) {
            Some(n) => r matches Some(s) && s@ == n,
            None => r is None,
        },
{
    let info = to_chars("INFO:");
    let chars = to_chars(output);
    let ls = split_lines(&chars);
    let ghost lv = ls.deep_view();
    let mut i: usize = 0;
    assert(lv.skip(0) =~= lv);
    while i < ls.len()
        invariant
            i <= ls.len(),
            lv == ls.deep_view(),
            lv == lines(output@),
            info@ == "INFO:"@,
            tasklist_name_of(lv) == tasklist_name_of(lv.skip(i as int)),
        decreases ls.len() - i,
    {
        assert(ls[i as int]@ =~= lv[i as int]);
        assert(lv.skip(i as int)[0] == lv[i as int]);
        assert(lv.skip(i as int).skip(1) =~= lv.skip(i + 1));
        match tasklist_line(&ls[i], &info) {
            Some(n) => {
                return Some(from_chars(n.as_slice()));
            },
            None => {},
        }
        i = i + 1;
    }
    None
}

} // verus!
