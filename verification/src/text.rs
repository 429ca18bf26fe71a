//! Character-level text utilities with mathematical specifications.
//!
//! Text coming from commands and files is turned into a `Vec<char>` once and
//! processed by index; every function here is specified over `Seq<char>`.
use vstd::prelude::*;

verus! {

// ---------------------------------------------------------------------------
// Strings and character vectors
// ---------------------------------------------------------------------------

/// Appends one character to a `String` (`String::push`).
/// Trusted: std documents that `push` appends the given char to the end of the string.
#[verifier::external_body]
pub(crate) fn push_char(s: &mut String, c: char)
    ensures
        final(s)@ == old(s)@.push(c),
{
    s.push(c);
}

/// The characters of a string slice, in order.
pub fn to_chars(s: &str) -> (v: Vec<char>)
    ensures
        v@ == s@,
{
    let mut v: Vec<char> = Vec::new();
    for c in it: s.chars()
        invariant
            v@ == it.seq().take(it.index() as int),
            it.seq() == s@,
    {
        v.push(c);
    }
    v
}

/// Appends a sequence of characters to a `String`.
pub(crate) fn push_chars(s: &mut String, v: &[char])
    ensures
        final(s)@ == old(s)@ + v@,
{
    let mut i: usize = 0;
    while i < v.len()
        invariant
            i <= v.len(),
            s@ == old(s)@ + v@.take(i as int),
        decreases v.len() - i,
    {
        push_char(s, v[i]);
        assert(v@.take(i as int).push(v@[i as int]) =~= v@.take(i + 1));
        assert(old(s)@ + v@.take(i as int).push(v@[i as int]) =~= (old(s)@ + v@.take(i as int)).push(v@[i as int]));
        i = i + 1;
    }
    assert(v@.take(v.len() as int) =~= v@);
}

/// Builds a `String` from a sequence of characters.
pub fn from_chars(v: &[char]) -> (s: String)
    ensures
        s@ == v@,
{
    let mut s = String::new();
    push_chars(&mut s, v);
    assert(Seq::<char>::empty() + v@ =~= v@);
    s
}

/// Appends the characters of a string slice to a `String`.
pub fn push_str(s: &mut String, t: &str)
    ensures
        final(s)@ == old(s)@ + t@,
{
    let v = to_chars(t);
    push_chars(s, v.as_slice());
}

/// A copy of `v[lo..hi]`.
pub fn slice_vec(v: &Vec<char>, lo: usize, hi: usize) -> (r: Vec<char>)
    requires
        lo <= hi <= v.len(),
    ensures
        r@ == v@.subrange(lo as int, hi as int),
{
    let mut r: Vec<char> = Vec::new();
    let mut i = lo;
    while i < hi
        invariant
            lo <= i <= hi <= v.len(),
            r@ == v@.subrange(lo as int, i as int),
        decreases hi - i,
    {
        r.push(v[i]);
        assert(v@.subrange(lo as int, i as int).push(v@[i as int]) =~= v@.subrange(lo as int, i + 1));
        i = i + 1;
    }
    r
}

/// Whether two character sequences are equal.
pub fn chars_eq(a: &[char], b: &[char]) -> (r: bool)
    ensures
        r == (a@ == b@),
{
    if a.len() != b.len() {
        return false;
    }
    let mut i: usize = 0;
    while i < a.len()
        invariant
            a.len() == b.len(),
            i <= a.len(),
            forall|j: int| 0 <= j < i ==> a@[j] == b@[j],
        decreases a.len() - i,
    {
        if a[i] != b[i] {
            return false;
        }
        i = i + 1;
    }
    assert(a@ =~= b@);
    true
}

/// Whether `a[lo..]` starts with `p`.
pub fn has_prefix_at(a: &[char], lo: usize, p: &[char]) -> (r: bool)
    requires
        lo <= a.len(),
    ensures
        r == (p@.len() <= a@.len() - lo && a@.subrange(lo as int, lo + p@.len()) == p@),
{
    if p.len() > a.len() - lo {
        return false;
    }
    let mut i: usize = 0;
    while i < p.len()
        invariant
            lo + p.len() <= a.len(),
            i <= p.len(),
            forall|j: int| 0 <= j < i ==> a@[lo + j] == p@[j],
        decreases p.len() - i,
    {
        if a[lo + i] != p[i] {
            assert(a@.subrange(lo as int, lo + p@.len())[i as int] != p@[i as int]);
            return false;
        }
        i = i + 1;
    }
    assert(a@.subrange(lo as int, lo + p@.len()) =~= p@);
    true
}

/// Whether `t` occurs in `s` as a contiguous run of characters.
pub open spec fn contains_at(s: Seq<char>, t: Seq<char>, i: int) -> bool {
    0 <= i && i + t.len() <= s.len() && s.subrange(i, i + t.len()) == t
}

/// Whether `t` is a substring of `s`.
pub open spec fn contains_seq(s: Seq<char>, t: Seq<char>) -> bool {
    exists|i: int| contains_at(s, t, i)
}

/// Substring test (`str::contains` with a string pattern).
pub fn contains_chars(s: &[char], t: &[char]) -> (r: bool)
    ensures
        r == contains_seq(s@, t@),
{
    if t.len() > s.len() {
        assert forall|i: int| !contains_at(s@, t@, i) by {}
        return false;
    }
    let last = s.len() - t.len();
    let mut i: usize = 0;
    loop
        invariant
            t.len() <= s.len(),
            last == s.len() - t.len(),
            i <= last,
            forall|j: int| 0 <= j < i ==> !contains_at(s@, t@, j),
        decreases last - i,
    {
        if has_prefix_at(s, i, t) {
            assert(contains_at(s@, t@, i as int));
            return true;
        }
        if i == last {
            assert forall|j: int| !contains_at(s@, t@, j) by {
                if 0 <= j && j + t@.len() <= s@.len() {
                    assert(j <= i);
                }
            }
            return false;
        }
        i = i + 1;
    }
}

// ---------------------------------------------------------------------------
// Whitespace and trimming
// ---------------------------------------------------------------------------

/// Unicode `White_Space` (the set `char::is_whitespace` tests).
pub open spec fn is_ws(c: char) -> bool {
    let x = c as u32;
    (0x09 <= x && x <= 0x0D) || x == 0x20 || x == 0x85 || x == 0xA0 || x == 0x1680
        || (0x2000 <= x && x <= 0x200A) || x == 0x2028 || x == 0x2029 || x == 0x202F
        || x == 0x205F || x == 0x3000
}

pub fn is_whitespace(c: char) -> (r: bool)
    ensures
        r == is_ws(c),
{
    let x = c as u32;
    (0x09 <= x && x <= 0x0D) || x == 0x20 || x == 0x85 || x == 0xA0 || x == 0x1680
        || (0x2000 <= x && x <= 0x200A) || x == 0x2028 || x == 0x2029 || x == 0x202F
        || x == 0x205F || x == 0x3000
}

/// `s` with leading whitespace removed (`str::trim_start`).
pub open spec fn trim_start(s: Seq<char>) -> Seq<char>
    decreases s.len(),
{
    if s.len() > 0 && is_ws(s[0]) {
        trim_start(s.skip(1))
    } else {
        s
    }
}

/// `s` with trailing whitespace removed (`str::trim_end`).
pub open spec fn trim_end(s: Seq<char>) -> Seq<char>
    decreases s.len(),
{
    if s.len() > 0 && is_ws(s.last()) {
        trim_end(s.drop_last())
    } else {
        s
    }
}

/// `s` with leading and trailing whitespace removed (`str::trim`).
pub open spec fn trim(s: Seq<char>) -> Seq<char> {
    trim_end(trim_start(s))
}

proof fn lemma_trim_start_skip(s: Seq<char>, k: int)
    requires
        0 <= k <= s.len(),
        forall|j: int| 0 <= j < k ==> is_ws(s[j]),
    ensures
        trim_start(s) == trim_start(s.skip(k)),
    decreases k,
{
    if k > 0 {
        assert(s.skip(1).skip(k - 1) =~= s.skip(k));
        lemma_trim_start_skip(s.skip(1), k - 1);
    } else {
        assert(s.skip(0) =~= s);
    }
}

proof fn lemma_trim_end_take(s: Seq<char>, k: int)
    requires
        0 <= k <= s.len(),
        forall|j: int| k <= j < s.len() ==> is_ws(s[j]),
    ensures
        trim_end(s) == trim_end(s.take(k)),
    decreases s.len() - k,
{
    if k < s.len() {
        assert(s.drop_last().take(k) =~= s.take(k));
        lemma_trim_end_take(s.drop_last(), k);
    } else {
        assert(s.take(k) =~= s);
    }
}

/// Bounds `(a, b)` such that `v[a..b]` is `v` trimmed.
pub fn trim_bounds(v: &[char]) -> (r: (usize, usize))
    ensures
        r.0 <= r.1 <= v.len(),
        v@.subrange(r.0 as int, r.1 as int) == trim(v@),
{
    let mut a: usize = 0;
    while a < v.len() && is_whitespace(v[a])
        invariant
            a <= v.len(),
            forall|j: int| 0 <= j < a ==> is_ws(v@[j]),
        decreases v.len() - a,
    {
        a = a + 1;
    }
    proof {
        lemma_trim_start_skip(v@, a as int);
        assert(trim_start(v@.skip(a as int)) == v@.skip(a as int));
    }
    let mut b: usize = v.len();
    while b > a && is_whitespace(v[b - 1])
        invariant
            a <= b <= v.len(),
            forall|j: int| b <= j < v.len() ==> is_ws(v@[j]),
        decreases b - a,
    {
        b = b - 1;
    }
    proof {
        let t = v@.skip(a as int);
        assert forall|j: int| b - a <= j < t.len() implies is_ws(t[j]) by {
            assert(t[j] == v@[a + j]);
        }
        lemma_trim_end_take(t, b - a);
        assert(t.take(b - a) =~= v@.subrange(a as int, b as int));
    }
    (a, b)
}

/// `v` trimmed, as a new vector.
pub fn trim_chars(v: &Vec<char>) -> (r: Vec<char>)
    ensures
        r@ == trim(v@),
{
    let (a, b) = trim_bounds(v.as_slice());
    slice_vec(v, a, b)
}

// ---------------------------------------------------------------------------
// Lines
// ---------------------------------------------------------------------------

/// A line with one trailing carriage return removed, if any.
pub open spec fn strip_cr(l: Seq<char>) -> Seq<char> {
    if l.len() > 0 && l.last() == '\r' {
        l.drop_last()
    } else {
        l
    }
}

/// Reading `s` from the left: the completed lines so far, and the unfinished one.
pub open spec fn line_state(s: Seq<char>) -> (Seq<Seq<char>>, Seq<char>)
    decreases s.len(),
{
    if s.len() == 0 {
        (Seq::empty(), Seq::empty())
    } else {
        let st = line_state(s.drop_last());
        if s.last() == '\n' {
            (st.0.push(strip_cr(st.1)), Seq::empty())
        } else {
            (st.0, st.1.push(s.last()))
        }
    }
}

/// The lines of `s` (`str::lines`): split at `\n`, a `\r` before the `\n` removed,
/// no empty line after a final line ending.
pub open spec fn lines(s: Seq<char>) -> Seq<Seq<char>> {
    let st = line_state(s);
    if st.1.len() > 0 {
        st.0.push(st.1)
    } else {
        st.0
    }
}

/// The lines of a text, as character vectors.
pub fn split_lines(v: &Vec<char>) -> (r: Vec<Vec<char>>)
    ensures
        r.deep_view() == lines(v@),
{
    let mut done: Vec<Vec<char>> = Vec::new();
    let mut cur: Vec<char> = Vec::new();
    let mut i: usize = 0;
    while i < v.len()
        invariant
            i <= v.len(),
            done.deep_view() == line_state(v@.take(i as int)).0,
            cur@ == line_state(v@.take(i as int)).1,
        decreases v.len() - i,
    {
        let c = v[i];
        assert(v@.take(i + 1).drop_last() =~= v@.take(i as int));
        if c == '\n' {
            if cur.len() > 0 && cur[cur.len() - 1] == '\r' {
                cur.pop();
            }
            let ghost old_done = done.deep_view();
            let ghost cv = cur@;
            assert(cur.deep_view() =~= cv);
            done.push(cur);
            assert(done.deep_view() =~= old_done.push(cv));
            cur = Vec::new();
        } else {
            cur.push(c);
        }
        i = i + 1;
    }
    assert(v@.take(v.len() as int) =~= v@);
    if cur.len() > 0 {
        let ghost old_done = done.deep_view();
        let ghost cv = cur@;
        assert(cur.deep_view() =~= cv);
        done.push(cur);
        assert(done.deep_view() =~= old_done.push(cv));
    }
    done
}

// ---------------------------------------------------------------------------
// Decimal numbers
// ---------------------------------------------------------------------------

/// The ASCII digit for `d` (`0 <= d < 10`).
pub open spec fn digit_char(d: int) -> char {
    if d == 0 { '0' } else if d == 1 { '1' } else if d == 2 { '2' } else if d == 3 { '3' }
    else if d == 4 { '4' } else if d == 5 { '5' } else if d == 6 { '6' } else if d == 7 { '7' }
    else if d == 8 { '8' } else { '9' }
}

/// Whether `c` is an ASCII decimal digit.
pub open spec fn is_digit(c: char) -> bool {
    '0' <= c && c <= '9'
}

/// The value of an ASCII digit.
pub open spec fn digit_value(c: char) -> int {
    (c as u32) - ('0' as u32)
}

/// The shortest decimal representation of `n` (`Display` for unsigned integers).
pub open spec fn decimal(n: nat) -> Seq<char>
    decreases n,
{
    if n < 10 {
        seq![digit_char(n as int)]
    } else {
        decimal(n / 10).push(digit_char((n % 10) as int))
    }
}

/// The decimal representation of a signed integer (`Display` for signed integers).
pub open spec fn signed_decimal(n: int) -> Seq<char> {
    if n < 0 {
        seq!['-'] + decimal((-n) as nat)
    } else {
        decimal(n as nat)
    }
}

pub(crate) fn digit_to_char(d: u64) -> (c: char)
    requires
        d < 10,
    ensures
        c == digit_char(d as int),
{
    if d == 0 { '0' } else if d == 1 { '1' } else if d == 2 { '2' } else if d == 3 { '3' }
    else if d == 4 { '4' } else if d == 5 { '5' } else if d == 6 { '6' } else if d == 7 { '7' }
    else if d == 8 { '8' } else { '9' }
}

/// Appends the decimal representation of `n`.
pub fn push_decimal(s: &mut String, n: u64)
    ensures
        final(s)@ == old(s)@ + decimal(n as nat),
    decreases n,
{
    if n >= 10 {
        push_decimal(s, n / 10);
    }
    push_char(s, digit_to_char(n % 10));
    assert(old(s)@ + decimal(n as nat) =~= if n >= 10 {
        (old(s)@ + decimal((n / 10) as nat)).push(digit_char((n % 10) as int))
    } else {
        old(s)@.push(digit_char((n % 10) as int))
    });
}

/// Appends the decimal representation of a signed integer.
pub fn push_signed_decimal(s: &mut String, n: i64)
    ensures
        final(s)@ == old(s)@ + signed_decimal(n as int),
{
    if n < 0 {
        push_char(s, '-');
        let m: u64 = if n == i64::MIN {
            9223372036854775808u64
        } else {
            (-n) as u64
        };
        push_decimal(s, m);
        assert(old(s)@ + signed_decimal(n as int) =~= old(s)@.push('-') + decimal(m as nat));
    } else {
        push_decimal(s, n as u64);
    }
}

/// The value of a nonempty run of ASCII digits, read left to right.
pub open spec fn digits_value(s: Seq<char>) -> nat
    decreases s.len(),
{
    if s.len() == 0 {
        0
    } else {
        (digits_value(s.drop_last()) * 10 + digit_value(s.last())) as nat
    }
}

/// Whether every character of `s` is an ASCII digit.
pub open spec fn all_digits(s: Seq<char>) -> bool {
    forall|i: int| 0 <= i < s.len() ==> is_digit(#[trigger] s[i])
}

/// What `str::parse` gives for an unsigned integer type whose largest value is `max`:
/// an optional `+`, then at least one ASCII digit, the value at most `max`.
pub open spec fn parse_unsigned(s: Seq<char>, max: nat) -> Option<nat> {
    let d = if s.len() > 0 && s[0] == '+' { s.skip(1) } else { s };
    if d.len() > 0 && all_digits(d) && digits_value(d) <= max {
        Some(digits_value(d))
    } else {
        None
    }
}

proof fn lemma_digits_value_monotone(s: Seq<char>, k: int)
    requires
        0 <= k <= s.len(),
        all_digits(s),
    ensures
        digits_value(s.take(k)) <= digits_value(s),
    decreases s.len() - k,
{
    if k < s.len() {
        assert(s.drop_last().take(k) =~= s.take(k));
        assert(is_digit(s[s.len() - 1]));
        lemma_digits_value_monotone(s.drop_last(), k);
    } else {
        assert(s.take(k) =~= s);
    }
}

/// Parses `v[lo..hi]` as an unsigned integer of at most `max` (`str::parse::<uN>`).
pub fn parse_unsigned_chars(v: &[char], lo: usize, hi: usize, max: u64) -> (r: Option<u64>)
    requires
        lo <= hi <= v.len(),
    ensures
        match parse_unsigned(v@.subrange(lo as int, hi as int), max as nat) {
            Some(n) => r == Some(n as u64),
            None => r is None,
        },
        r matches Some(x) ==> x <= max,
{
    let ghost s = v@.subrange(lo as int, hi as int);
    let mut start = lo;
    if lo < hi && v[lo] == '+' {
        start = lo + 1;
    }
    let ghost d = v@.subrange(start as int, hi as int);
    assert(d =~= (if s.len() > 0 && s[0] == '+' { s.skip(1) } else { s }));
    if start == hi {
        return None;
    }
    let mut acc: u64 = 0;
    let mut i = start;
    while i < hi
        invariant
            lo <= start <= i <= hi <= v.len(),
            d == v@.subrange(start as int, hi as int),
            s == v@.subrange(lo as int, hi as int),
            d == (if s.len() > 0 && s[0] == '+' { s.skip(1) } else { s }),
            forall|j: int| start <= j < i ==> is_digit(#[trigger] v@[j]),
            acc as nat == digits_value(d.take(i - start)),
            acc <= max,
        decreases hi - i,
    {
        let c = v[i];
        assert(d.take(i + 1 - start).drop_last() =~= d.take(i - start));
        if !('0' <= c && c <= '9') {
            assert(d[i - start] == c);
            assert(!is_digit(d[i - start]));
            return None;
        }
        let dv = (c as u32 - '0' as u32) as u64;
        let next: u128 = (acc as u128) * 10 + (dv as u128);
        assert(d.take(i + 1 - start).last() == c);
        assert(digits_value(d.take(i + 1 - start)) == next);
        if next > max as u128 {
            proof {
                assert forall|j: int| 0 <= j < (i + 1 - start) implies is_digit(#[trigger] d.take(i + 1 - start)[j]) by {
                    assert(d.take(i + 1 - start)[j] == v@[start + j]);
                }
                if all_digits(d) {
                    lemma_digits_value_monotone(d, i + 1 - start);
                }
            }
            return None;
        }
        acc = next as u64;
        i = i + 1;
    }
    assert(d.take(hi - start) =~= d);
    assert(all_digits(d)) by {
        assert forall|j: int| 0 <= j < d.len() implies is_digit(#[trigger] d[j]) by {
            assert(d[j] == v@[start + j]);
        }
    }
    Some(acc)
}

// ---------------------------------------------------------------------------
// UTF-8 lengths, replacing, joining
// ---------------------------------------------------------------------------

/// The number of bytes `c` takes in UTF-8.
pub open spec fn utf8_len(c: char) -> nat {
    let x = c as u32;
    if x < 0x80 { 1 } else if x < 0x800 { 2 } else if x < 0x10000 { 3 } else { 4 }
}

/// The number of bytes `s` takes in UTF-8 (`str::len`).
pub open spec fn byte_len(s: Seq<char>) -> nat
    decreases s.len(),
{
    if s.len() == 0 { 0 } else { byte_len(s.drop_last()) + utf8_len(s.last()) }
}

/// The index of the character that starts at byte offset `b`, if `b` is on a
/// character boundary of `s` (where `&s[b..]` does not panic).
pub open spec fn boundary_index(s: Seq<char>, b: nat) -> Option<int> {
    if exists|j: int| 0 <= j <= s.len() && byte_len(s.take(j)) == b {
        Some(choose|j: int| 0 <= j <= s.len() && byte_len(s.take(j)) == b)
    } else {
        None
    }
}

pub proof fn lemma_byte_len_step(s: Seq<char>, j: int)
    requires
        0 <= j < s.len(),
    ensures
        byte_len(s.take(j + 1)) == byte_len(s.take(j)) + utf8_len(s[j]),
{
    assert(s.take(j + 1).drop_last() =~= s.take(j));
}

pub proof fn lemma_byte_len_strict(s: Seq<char>, i: int, j: int)
    requires
        0 <= i < j <= s.len(),
    ensures
        byte_len(s.take(i)) < byte_len(s.take(j)),
    decreases j - i,
{
    lemma_byte_len_step(s, j - 1);
    if i < j - 1 {
        lemma_byte_len_strict(s, i, j - 1);
    }
}

pub fn utf8_len_of(c: char) -> (n: usize)
    ensures
        n == utf8_len(c),
{
    let x = c as u32;
    if x < 0x80 { 1 } else if x < 0x800 { 2 } else if x < 0x10000 { 3 } else { 4 }
}

/// `s` with every `a` replaced by `b` (`str::replace` with single characters).
pub open spec fn replace_char(s: Seq<char>, a: char, b: char) -> Seq<char> {
    Seq::new(s.len(), |i: int| if s[i] == a { b } else { s[i] })
}

/// `base\rel` with forward slashes of `rel` turned into backslashes.
pub open spec fn backslash_join(base: Seq<char>, rel: Seq<char>) -> Seq<char> {
    base + seq!['\\'] + replace_char(rel, '/', '\\')
}

/// Builds `base\rel`, turning the forward slashes of `rel` into backslashes.
pub fn backslash_join_str(base: &str, rel: &[char]) -> (r: String)
    ensures
        r@ == backslash_join(base@, rel@),
{
    let mut r = String::new();
    push_str(&mut r, base);
    push_char(&mut r, '\\');
    let mut i: usize = 0;
    let ghost head = base@ + seq!['\\'];
    assert(r@ =~= head);
    while i < rel.len()
        invariant
            i <= rel.len(),
            r@ == head + replace_char(rel@.take(i as int), '/', '\\'),
        decreases rel.len() - i,
    {
        let c = rel[i];
        if c == '/' {
            push_char(&mut r, '\\');
        } else {
            push_char(&mut r, c);
        }
        assert(replace_char(rel@.take(i + 1), '/', '\\') =~= replace_char(rel@.take(i as int), '/', '\\').push(
            if c == '/' { '\\' } else { c }));
        i = i + 1;
    }
    assert(rel@.take(rel.len() as int) =~= rel@);
    r
}

/// The path of `rel` (a `/`-separated relative path, as git prints it) inside
/// the folder `base`: `base\rel` with backslashes on Windows, `base/rel` elsewhere.
pub open spec fn join_path(base: Seq<char>, rel: Seq<char>, windows: bool) -> Seq<char> {
    if windows {
        backslash_join(base, rel)
    } else {
        base + seq!['/'] + rel
    }
}

/// Builds the path of `rel` inside `base` for the host's separator.
pub fn join_path_str(base: &str, rel: &[char], windows: bool) -> (r: String)
    ensures
        r@ == join_path(base@, rel@, windows),
{
    if windows {
        backslash_join_str(base, rel)
    } else {
        let mut r = string_of(base);
        push_char(&mut r, '/');
        push_chars(&mut r, rel);
        r
    }
}

/// Whether `a` comes strictly before `b` in the order of `String`: the
/// lexicographic order of their characters by code point (which is the
/// byte order of their UTF-8 encodings).
pub open spec fn seq_less(a: Seq<char>, b: Seq<char>) -> bool
    decreases a.len(),
{
    if a.len() == 0 {
        b.len() > 0
    } else if b.len() == 0 {
        false
    } else if a[0] != b[0] {
        (a[0] as u32) < (b[0] as u32)
    } else {
        seq_less(a.skip(1), b.skip(1))
    }
}

/// Whether the keys of `m` are in strictly ascending `String` order.
pub open spec fn keys_ascending<V>(m: Seq<(Seq<char>, V)>) -> bool {
    forall|i: int, j: int| 0 <= i < j < m.len() ==> seq_less(#[trigger] m[i].0, #[trigger] m[j].0)
}

proof fn lemma_seq_less_common(a: Seq<char>, b: Seq<char>, i: int)
    requires
        0 <= i <= a.len(),
        i <= b.len(),
        forall|k: int| 0 <= k < i ==> a[k] == b[k],
    ensures
        seq_less(a, b) == seq_less(a.skip(i), b.skip(i)),
    decreases i,
{
    if i > 0 {
        lemma_seq_less_common(a.skip(1), b.skip(1), i - 1);
        assert(a.skip(1).skip(i - 1) =~= a.skip(i));
        assert(b.skip(1).skip(i - 1) =~= b.skip(i));
    } else {
        assert(a.skip(0) =~= a);
        assert(b.skip(0) =~= b);
    }
}

/// Whether `a` comes strictly before `b` in the order of `String`.
pub fn chars_less(a: &[char], b: &[char]) -> (r: bool)
    ensures
        r == seq_less(a@, b@),
{
    let mut i: usize = 0;
    while i < a.len() && i < b.len() && a[i] == b[i]
        invariant
            i <= a.len(),
            i <= b.len(),
            forall|k: int| 0 <= k < i ==> a@[k] == b@[k],
        decreases a.len() - i,
    {
        i = i + 1;
    }
    proof { lemma_seq_less_common(a@, b@, i as int); }
    if i == a.len() {
        i < b.len()
    } else if i == b.len() {
        false
    } else {
        assert(a@.skip(i as int)[0] == a@[i as int] && b@.skip(i as int)[0] == b@[i as int]);
        (a[i] as u32) < (b[i] as u32)
    }
}

/// Whether the names of a list of pairs are in strictly ascending `String`
/// order (so each name occurs once).
pub fn names_ascending(v: &Vec<(String, String)>) -> (r: bool)
    ensures
        r == keys_ascending(v.deep_view()),
{
    let ghost dv = v.deep_view();
    let mut i: usize = 0;
    while i < v.len()
        invariant
            i <= v.len(),
            dv == v.deep_view(),
            forall|x: int, y: int| 0 <= x < y < dv.len() && x < i ==> seq_less(#[trigger] dv[x].0, #[trigger] dv[y].0),
        decreases v.len() - i,
    {
        let a = to_chars(v[i].0.as_str());
        let mut j: usize = i + 1;
        while j < v.len()
            invariant
                i < j <= v.len(),
                dv == v.deep_view(),
                a@ == dv[i as int].0,
                forall|x: int, y: int| 0 <= x < y < dv.len() && x < i ==> seq_less(#[trigger] dv[x].0, #[trigger] dv[y].0),
                forall|y: int| i < y < j ==> seq_less(dv[i as int].0, #[trigger] dv[y].0),
            decreases v.len() - j,
        {
            let b = to_chars(v[j].0.as_str());
            assert(b@ == dv[j as int].0);
            if !chars_less(a.as_slice(), b.as_slice()) {
                return false;
            }
            j = j + 1;
        }
        i = i + 1;
    }
    true
}

/// Nothing comes strictly before itself.
pub proof fn lemma_seq_less_irreflexive(a: Seq<char>)
    ensures
        !seq_less(a, a),
    decreases a.len(),
{
    if a.len() > 0 {
        lemma_seq_less_irreflexive(a.skip(1));
    }
}

/// Whether `s` is one of the strings of `list`.
pub open spec fn has_string(list: Seq<String>, s: Seq<char>) -> bool {
    exists|i: int| 0 <= i < list.len() && list[i]@ == s
}

/// Whether `s` is one of the strings of `list`.
pub fn contains_string(list: &Vec<String>, s: &str) -> (r: bool)
    ensures
        r == has_string(list@, s@),
{
    let target = to_chars(s);
    let mut i: usize = 0;
    while i < list.len()
        invariant
            i <= list.len(),
            target@ == s@,
            forall|j: int| 0 <= j < i ==> list@[j]@ != s@,
        decreases list.len() - i,
    {
        let c = to_chars(list[i].as_str());
        if chars_eq(c.as_slice(), target.as_slice()) {
            return true;
        }
        i = i + 1;
    }
    false
}

/// A copy of a string slice as a `String`.
pub fn string_of(s: &str) -> (r: String)
    ensures
        r@ == s@,
{
    let mut r = String::new();
    push_str(&mut r, s);
    assert(r@ =~= s@);
    r
}

/// The part of `s` before its first `c` (the first piece of `split(c)`).
pub open spec fn before_char(s: Seq<char>, c: char) -> Seq<char>
    decreases s.len(),
{
    if s.len() == 0 || s[0] == c {
        Seq::empty()
    } else {
        seq![s[0]] + before_char(s.skip(1), c)
    }
}

/// `s` without its leading `c`s (`trim_start_matches(c)`).
pub open spec fn strip_start_char(s: Seq<char>, c: char) -> Seq<char>
    decreases s.len(),
{
    if s.len() > 0 && s[0] == c {
        strip_start_char(s.skip(1), c)
    } else {
        s
    }
}

proof fn lemma_before_char(s: Seq<char>, c: char, k: int)
    requires
        0 <= k <= s.len(),
        forall|j: int| 0 <= j < k ==> s[j] != c,
        k < s.len() ==> s[k] == c,
    ensures
        before_char(s, c) == s.take(k),
    decreases k,
{
    if k > 0 {
        lemma_before_char(s.skip(1), c, k - 1);
        assert(s.take(k) =~= seq![s[0]] + s.skip(1).take(k - 1));
    } else {
        assert(s.take(0) =~= Seq::<char>::empty());
    }
}

proof fn lemma_strip_start_char(s: Seq<char>, c: char, k: int)
    requires
        0 <= k <= s.len(),
        forall|j: int| 0 <= j < k ==> s[j] == c,
        k < s.len() ==> s[k] != c,
    ensures
        strip_start_char(s, c) == s.skip(k),
    decreases k,
{
    if k > 0 {
        lemma_strip_start_char(s.skip(1), c, k - 1);
        assert(s.skip(1).skip(k - 1) =~= s.skip(k));
    } else {
        assert(s.skip(0) =~= s);
    }
}

/// The part of `v` before its first `c`.
pub fn before_char_chars(v: &Vec<char>, c: char) -> (r: Vec<char>)
    ensures
        r@ == before_char(v@, c),
{
    let mut k: usize = 0;
    while k < v.len() && v[k] != c
        invariant
            k <= v.len(),
            forall|j: int| 0 <= j < k ==> v@[j] != c,
        decreases v.len() - k,
    {
        k = k + 1;
    }
    proof { lemma_before_char(v@, c, k as int); }
    slice_vec(v, 0, k)
}

/// `v` without its leading `c`s.
pub fn strip_start_char_chars(v: &Vec<char>, c: char) -> (r: Vec<char>)
    ensures
        r@ == strip_start_char(v@, c),
{
    let mut k: usize = 0;
    while k < v.len() && v[k] == c
        invariant
            k <= v.len(),
            forall|j: int| 0 <= j < k ==> v@[j] == c,
        decreases v.len() - k,
    {
        k = k + 1;
    }
    proof { lemma_strip_start_char(v@, c, k as int); }
    let r = slice_vec(v, k, v.len());
    assert(r@ =~= v@.skip(k as int));
    r
}

} // verus!
