//! Dates: a count of seconds since the Unix epoch as an ISO 8601 UTC
//! date-time, in the proleptic Gregorian calendar.
use vstd::prelude::*;
use crate::text::{digit_char, digit_to_char, push_char, push_signed_decimal, signed_decimal};

verus! {

/// The civil date `(year, month, day)` of the day `z` days after 1970-01-01
/// (negative before), by the days-to-civil conversion over 400-year eras of
/// 146097 days, counting years from March.
pub open spec fn civil_from_days(z0: int) -> (int, int, int) {
    let z = z0 + 719468;
    let era = z / 146097;
    let doe = z % 146097;
    let yoe = (doe - doe / 1460 + doe / 36524 - doe / 146096) / 365;
    let doy = doe - (365 * yoe + yoe / 4 - yoe / 100);
    let mp = (5 * doy + 2) / 153;
    let d = doy - (153 * mp + 2) / 5 + 1;
    let m = if mp < 10 { mp + 3 } else { mp - 9 };
    let y = yoe + era * 400;
    (if m <= 2 { y + 1 } else { y }, m, d)
}

/// Two decimal digits for `n` in `0..100`; its plain decimal otherwise.
pub open spec fn two_digits(n: int) -> Seq<char> {
    if 0 <= n < 100 {
        seq![digit_char(n / 10), digit_char(n % 10)]
    } else {
        signed_decimal(n)
    }
}

/// Four decimal digits for `n` in `0..10000`.
pub open spec fn four_digits(n: int) -> Seq<char> {
    seq![digit_char(n / 1000), digit_char(n / 100 % 10), digit_char(n / 10 % 10), digit_char(n % 10)]
}

/// An ISO 8601 year: four digits from 0 to 9999, `+` and its digits above,
/// `-` and at least four digits below.
pub open spec fn year_text(y: int) -> Seq<char> {
    if 0 <= y <= 9999 {
        four_digits(y)
    } else if y > 9999 {
        seq!['+'] + signed_decimal(y)
    } else if -y <= 9999 {
        seq!['-'] + four_digits(-y)
    } else {
        signed_decimal(y)
    }
}

/// `YYYY-MM-DDTHH:MM:SSZ` for `ts` seconds after the Unix epoch (UTC).
pub open spec fn iso_timestamp(ts: int) -> Seq<char> {
    let days = ts / 86400;
    let secs = ts % 86400;
    let c = civil_from_days(days);
    year_text(c.0) + seq!['-'] + two_digits(c.1) + seq!['-'] + two_digits(c.2) + seq!['T']
        + two_digits(secs / 3600) + seq![':'] + two_digits(secs % 3600 / 60) + seq![':']
        + two_digits(secs % 60) + seq!['Z']
}

/// Floor division with remainder: `a == q * b + r`, `0 <= r < b`.
fn div_mod(a: i128, b: i128) -> (res: (i128, i128))
    requires
        b > 0,
        b < 0x1_0000_0000,
        -0x1000_0000_0000_0000_0000 < a < 0x1000_0000_0000_0000_0000,
    ensures
        res.0 == a / b,
        res.1 == a % b,
        a == res.0 * b + res.1,
        0 <= res.1 < b,
{
    if a >= 0 {
        let ua = a as u128;
        let ub = b as u128;
        let q = ua / ub;
        let r = ua % ub;
        proof {
            vstd::arithmetic::div_mod::lemma_fundamental_div_mod(ua as int, ub as int);
            assert(q * ub <= ua) by (nonlinear_arith)
                requires
                    q as int == ua as int / ub as int,
                    ua as int == ub as int * (ua as int / ub as int) + ua as int % ub as int,
                    ua as int % ub as int >= 0;
            assert(q <= ua) by (nonlinear_arith)
                requires
                    q * ub <= ua,
                    ub >= 1;
        }
        let qi = q as i128;
        let ri = r as i128;
        proof {
            vstd::arithmetic::div_mod::lemma_mod_bound(ua as int, ub as int);
            vstd::arithmetic::div_mod::lemma_fundamental_div_mod_converse(a as int, b as int, qi as int, ri as int);
        }
        (qi, ri)
    } else {
        let u = (-(a + 1)) as u128;
        let ub = b as u128;
        let q0 = u / ub;
        let r0 = u % ub;
        proof {
            vstd::arithmetic::div_mod::lemma_fundamental_div_mod(u as int, ub as int);
            vstd::arithmetic::div_mod::lemma_mod_bound(u as int, ub as int);
            assert(q0 * ub <= u) by (nonlinear_arith)
                requires
                    q0 as int == u as int / ub as int,
                    u as int == ub as int * (u as int / ub as int) + u as int % ub as int,
                    u as int % ub as int >= 0;
            assert(q0 <= u) by (nonlinear_arith)
                requires
                    q0 * ub <= u,
                    ub >= 1;
        }
        let q = -(q0 as i128) - 1;
        let r = b - 1 - (r0 as i128);
        proof {
            assert(u as int == q0 as int * b + r0 as int) by (nonlinear_arith)
                requires
                    u as int == ub as int * (u as int / ub as int) + u as int % ub as int,
                    q0 as int == u as int / ub as int,
                    r0 as int == u as int % ub as int,
                    ub as int == b as int;
            assert(a as int == q as int * b + r as int) by (nonlinear_arith)
                requires
                    u as int == q0 as int * b + r0 as int,
                    u as int == -(a as int + 1),
                    q as int == -(q0 as int) - 1,
                    r as int == b - 1 - r0 as int;
            vstd::arithmetic::div_mod::lemma_fundamental_div_mod_converse(a as int, b as int, q as int, r as int);
        }
        (q, r)
    }
}

fn push_two_digits(s: &mut String, n: i128)
    requires
        -0x8000_0000_0000_0000 <= n <= 0x7fff_ffff_ffff_ffff,
    ensures
        final(s)@ == old(s)@ + two_digits(n as int),
{
    if 0 <= n && n < 100 {
        let u = n as u64;
        push_char(s, digit_to_char(u / 10));
        push_char(s, digit_to_char(u % 10));
        assert(final(s)@ =~= old(s)@ + two_digits(n as int)) by {
            assert(final(s)@ == old(s)@.push(digit_char((u / 10) as int)).push(digit_char((u % 10) as int)));
        }
    } else {
        push_signed_decimal(s, n as i64);
    }
}

fn push_four_digits(s: &mut String, n: u64)
    requires
        n < 10000,
    ensures
        final(s)@ == old(s)@ + four_digits(n as int),
{
    push_char(s, digit_to_char(n / 1000));
    push_char(s, digit_to_char(n / 100 % 10));
    push_char(s, digit_to_char(n / 10 % 10));
    push_char(s, digit_to_char(n % 10));
    assert(final(s)@ =~= old(s)@ + four_digits(n as int));
}

fn push_year(s: &mut String, y: i64)
    ensures
        final(s)@ == old(s)@ + year_text(y as int),
{
    if 0 <= y && y <= 9999 {
        push_four_digits(s, y as u64);
    } else if y > 9999 {
        push_char(s, '+');
        push_signed_decimal(s, y);
        assert(final(s)@ =~= old(s)@ + year_text(y as int));
    } else if y >= -9999 {
        push_char(s, '-');
        push_four_digits(s, (-y) as u64);
        assert(final(s)@ =~= old(s)@ + year_text(y as int));
    } else {
        push_signed_decimal(s, y);
    }
}

/// The date-time text of its parts.
pub open spec fn iso_text(y: int, m: int, d: int, h: int, mi: int, sec: int) -> Seq<char> {
    year_text(y) + seq!['-'] + two_digits(m) + seq!['-'] + two_digits(d) + seq!['T']
        + two_digits(h) + seq![':'] + two_digits(mi) + seq![':'] + two_digits(sec) + seq!['Z']
}

fn push_iso(s: &mut String, y: i64, m: i128, d: i128, h: i128, mi: i128, sec: i128)
    requires
        -0x8000_0000_0000_0000 <= m <= 0x7fff_ffff_ffff_ffff,
        -0x8000_0000_0000_0000 <= d <= 0x7fff_ffff_ffff_ffff,
        0 <= h < 100,
        0 <= mi < 100,
        0 <= sec < 100,
    ensures
        final(s)@ == old(s)@ + iso_text(y as int, m as int, d as int, h as int, mi as int, sec as int),
{
    push_year(s, y);
    push_char(s, '-');
    push_two_digits(s, m);
    push_char(s, '-');
    push_two_digits(s, d);
    push_char(s, 'T');
    push_two_digits(s, h);
    push_char(s, ':');
    push_two_digits(s, mi);
    push_char(s, ':');
    push_two_digits(s, sec);
    push_char(s, 'Z');
    assert(final(s)@ =~= old(s)@ + iso_text(y as int, m as int, d as int, h as int, mi as int, sec as int));
}

#[verifier::rlimit(40)]
fn civil_of(days: i128) -> (r: (i64, i128, i128))
    requires
        -0x10_0000_0000_0000 <= days <= 0x10_0000_0000_0000,
    ensures
        (r.0 as int, r.1 as int, r.2 as int) == civil_from_days(days as int),
        -0x1000_0000 <= r.1 <= 0x1000_0000,
        -0x1000_0000 <= r.2 <= 0x1000_0000,
{
    let z = days + 719468;
    let (era, doe) = div_mod(z, 146097);
    let (q1, _) = div_mod(doe, 1460);
    let (q2, _) = div_mod(doe, 36524);
    let (q3, _) = div_mod(doe, 146096);
    assert(0 <= q1 <= 100 && 0 <= q2 <= 4 && 0 <= q3 <= 1);
    let (yoe, _) = div_mod(doe - q1 + q2 - q3, 365);
    assert(-1 <= yoe <= 401);
    let (q4, _) = div_mod(yoe, 4);
    let (q5, _) = div_mod(yoe, 100);
    let doy = doe - (365 * yoe + q4 - q5);
    assert(-200000 <= doy <= 200000);
    let (mp, _) = div_mod(5 * doy + 2, 153);
    assert(-7000 <= mp <= 7000);
    let (q6, _) = div_mod(153 * mp + 2, 5);
    let d = doy - q6 + 1;
    let m = if mp < 10 { mp + 3 } else { mp - 9 };
    assert(-0x1_0000_0000_0000 <= era <= 0x1_0000_0000_0000);
    let y0 = yoe + era * 400;
    let y = if m <= 2 { y0 + 1 } else { y0 };
    (y as i64, m, d)
}

/// The ISO 8601 UTC date-time `YYYY-MM-DDTHH:MM:SSZ` of `ts` seconds after
/// the Unix epoch.
#[verifier::rlimit(40)]
pub fn iso_timestamp_of(ts: i64) -> (r: String)
    ensures
        r@ == iso_timestamp(ts as int),
{
    let (days, secs) = div_mod(ts as i128, 86400);
    let (y, m, d) = civil_of(days);
    let (h, hr) = div_mod(secs, 3600);
    let (mi, _) = div_mod(hr, 60);
    let (_, sec) = div_mod(secs, 60);
    assert(0 <= h < 24);
    assert(0 <= mi < 60);
    let mut r = String::new();
    push_iso(&mut r, y, m, d, h, mi, sec);
    proof {
        let t = ts as int;
        assert(days == t / 86400 && secs == t % 86400);
        assert(iso_timestamp(t) == iso_text(y as int, m as int, d as int, h as int, mi as int, sec as int));
        assert(r@ =~= iso_timestamp(t));
    }
    r
}

} // verus!
