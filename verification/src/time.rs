//! Calendar arithmetic for the timestamps written into index metadata:
//! seconds since the Unix epoch rendered as `YYYY-MM-DDTHH:MM:SSZ`
//! (proleptic Gregorian calendar, UTC, no leap seconds).

use vstd::prelude::*;
use crate::text::push_char;
use std::time::{Duration, SystemTime, SystemTimeError};

verus! {

/// Gregorian leap-year rule.
pub open spec fn leap_year(y: int) -> bool {
    (y % 4 == 0 && y % 100 != 0) || y % 400 == 0
}

/// Days in year `y`.
pub open spec fn year_length(y: int) -> int {
    if leap_year(y) { 366 } else { 365 }
}

/// Number of days in month `m` (1-based) of year `y`.
pub open spec fn month_length(y: int, m: int) -> int {
    if m == 2 {
        if leap_year(y) { 29 } else { 28 }
    } else if m == 4 || m == 6 || m == 9 || m == 11 {
        30
    } else {
        31
    }
}

/// Days from 1970-01-01 to the first day of year `y` (for `y >= 1970`).
pub open spec fn days_before_year(y: int) -> int
    decreases y - 1970,
{
    if y <= 1970 { 0 } else { days_before_year(y - 1) + year_length(y - 1) }
}

/// Days from the first of January of year `y` to the first day of month `m`.
pub open spec fn days_before_month(y: int, m: int) -> int
    decreases m,
{
    if m <= 1 { 0 } else { days_before_month(y, m - 1) + month_length(y, m - 1) }
}

/// A calendar date on or after 1970-01-01.
pub open spec fn valid_date(y: int, m: int, d: int) -> bool {
    &&& y >= 1970
    &&& 1 <= m <= 12
    &&& 1 <= d <= month_length(y, m)
}

/// Days between 1970-01-01 and the given date.
pub open spec fn days_since_epoch(y: int, m: int, d: int) -> int {
    days_before_year(y) + days_before_month(y, m) + d - 1
}

/// Whether `year` is a leap year.
pub fn is_leap(year: u64) -> (r: bool)
    ensures
        r == leap_year(year as int),
{
    (year % 4 == 0 && year % 100 != 0) || year % 400 == 0
}

proof fn lemma_days_before_year_monotone(a: int, b: int)
    requires
        1970 <= a <= b,
    ensures
        days_before_year(a) + 365 * (b - a) <= days_before_year(b),
    decreases b - a,
{
    if a < b {
        lemma_days_before_year_monotone(a, b - 1);
    }
}

proof fn lemma_days_before_year_strict(a: int, b: int)
    requires
        1970 <= a < b,
    ensures
        days_before_year(a) + year_length(a) <= days_before_year(b),
    decreases b - a,
{
    if a + 1 < b {
        lemma_days_before_year_strict(a, b - 1);
    }
}

proof fn lemma_days_before_month_bounds(y: int, m: int)
    requires
        1 <= m <= 13,
    ensures
        m == 13 ==> days_before_month(y, m) == year_length(y),
        0 <= days_before_month(y, m),
    decreases m,
{
    reveal_with_fuel(days_before_month, 13);
}

proof fn lemma_days_before_month_strict(y: int, a: int, b: int)
    requires
        1 <= a < b <= 13,
    ensures
        days_before_month(y, a) + month_length(y, a) <= days_before_month(y, b),
    decreases b - a,
{
    if a + 1 < b {
        lemma_days_before_month_strict(y, a, b - 1);
    }
}

/// Law: distinct valid dates lie on distinct days, so a day count names at
/// most one date and `days_to_date` gives back the date it was computed from.
pub proof fn lemma_days_since_epoch_injective(y1: int, m1: int, d1: int, y2: int, m2: int, d2: int)
    requires
        valid_date(y1, m1, d1),
        valid_date(y2, m2, d2),
        days_since_epoch(y1, m1, d1) == days_since_epoch(y2, m2, d2),
    ensures
        y1 == y2 && m1 == m2 && d1 == d2,
{
    lemma_days_before_month_bounds(y1, m1);
    lemma_days_before_month_bounds(y2, m2);
    lemma_days_before_month_bounds(y1, 13);
    lemma_days_before_month_bounds(y2, 13);
    if m1 < 13 {
        lemma_days_before_month_strict(y1, m1, 13);
    }
    if m2 < 13 {
        lemma_days_before_month_strict(y2, m2, 13);
    }
    if y1 < y2 {
        lemma_days_before_year_strict(y1, y2);
        assert(false);
    } else if y2 < y1 {
        lemma_days_before_year_strict(y2, y1);
        assert(false);
    }
    if m1 < m2 {
        lemma_days_before_month_strict(y1, m1, m2);
        assert(false);
    } else if m2 < m1 {
        lemma_days_before_month_strict(y1, m2, m1);
        assert(false);
    }
}

/// Whether date `(y1, m1, d1)` comes before date `(y2, m2, d2)` in the
/// calendar: by year, then month, then day.
pub open spec fn date_before(y1: int, m1: int, d1: int, y2: int, m2: int, d2: int) -> bool {
    ||| y1 < y2
    ||| y1 == y2 && m1 < m2
    ||| y1 == y2 && m1 == m2 && d1 < d2
}

/// A date that comes before another lies on an earlier day.
proof fn lemma_before_earlier(y1: int, m1: int, d1: int, y2: int, m2: int, d2: int)
    requires
        valid_date(y1, m1, d1),
        valid_date(y2, m2, d2),
        date_before(y1, m1, d1, y2, m2, d2),
    ensures
        days_since_epoch(y1, m1, d1) < days_since_epoch(y2, m2, d2),
{
    lemma_days_before_month_bounds(y1, m1);
    lemma_days_before_month_bounds(y2, m2);
    lemma_days_before_month_bounds(y1, 13);
    if y1 < y2 {
        if m1 < 13 {
            lemma_days_before_month_strict(y1, m1, 13);
        }
        lemma_days_before_year_strict(y1, y2);
    } else if m1 < m2 {
        lemma_days_before_month_strict(y1, m1, m2);
    }
}

/// Law: on valid dates the day count since 1970-01-01 follows the calendar
/// order, so of two day counts the smaller gives, through `days_to_date`,
/// the earlier date.
pub proof fn law_days_follow_calendar_order(y1: int, m1: int, d1: int, y2: int, m2: int, d2: int)
    requires
        valid_date(y1, m1, d1),
        valid_date(y2, m2, d2),
    ensures
        (days_since_epoch(y1, m1, d1) < days_since_epoch(y2, m2, d2)) == date_before(y1, m1, d1, y2, m2, d2),
{
    if date_before(y1, m1, d1, y2, m2, d2) {
        lemma_before_earlier(y1, m1, d1, y2, m2, d2);
    } else if date_before(y2, m2, d2, y1, m1, d1) {
        lemma_before_earlier(y2, m2, d2, y1, m1, d1);
    }
}

/// Converts a count of days since 1970-01-01 into `(year, month, day)`.
pub fn days_to_date(days: u64) -> (r: (u64, u64, u64))
    ensures
        valid_date(r.0 as int, r.1 as int, r.2 as int),
        days_since_epoch(r.0 as int, r.1 as int, r.2 as int) == days as int,
{
    let mut days = days;
    let ghost total = days as int;
    let mut year: u64 = 1970;
    loop
        invariant_except_break
            year >= 1970,
            days_before_year(year as int) + days as int == total,
            total <= u64::MAX,
        ensures
            year >= 1970,
            days_before_year(year as int) + days as int == total,
            (days as int) < year_length(year as int),
        decreases days,
    {
        let leap = is_leap(year);
        let days_in_year: u64 = if leap { 366 } else { 365 };
        if days < days_in_year {
            break;
        }
        proof {
            lemma_days_before_year_monotone(1970, year as int);
        }
        days = days - days_in_year;
        year = year + 1;
    }
    let leap = is_leap(year);
    let month_days: [u64; 12] = [31, if leap { 29 } else { 28 }, 31, 30, 31, 30, 31, 31, 30, 31, 30, 31];
    let ghost start = days as int;
    let mut month: u64 = 1;
    let mut i: usize = 0;
    proof {
        lemma_days_before_month_bounds(year as int, 13);
    }
    while i < 12
        invariant_except_break
            i < 12 ==> month_days[i as int] == month_length(year as int, i + 1),
            month_days@ == seq![31u64, if leap { 29u64 } else { 28u64 }, 31, 30, 31, 30, 31, 31, 30, 31, 30, 31],
            leap == leap_year(year as int),
            0 <= i <= 12,
            month == i + 1,
            days_before_month(year as int, month as int) + days as int == start,
            start < year_length(year as int),
            days_before_month(year as int, 13) == year_length(year as int),
        ensures
            1 <= month <= 12,
            days_before_month(year as int, month as int) + days as int == start,
            (days as int) < month_length(year as int, month as int),
        decreases 12 - i,
    {
        let md = month_days[i];
        if days < md {
            break;
        }
        days = days - md;
        month = month + 1;
        i = i + 1;
        proof {
            if i < 12 {
                assert(month_days[i as int] == month_length(year as int, i + 1));
            } else {
                assert(days_before_month(year as int, 13) + days as int == start);
                assert(false);
            }
        }
    }
    (year, month, days + 1)
}


/// The decimal digit character for `d < 10`.
pub open spec fn digit_char(d: int) -> char {
    if d == 0 { '0' } else if d == 1 { '1' } else if d == 2 { '2' } else if d == 3 { '3' }
    else if d == 4 { '4' } else if d == 5 { '5' } else if d == 6 { '6' } else if d == 7 { '7' }
    else if d == 8 { '8' } else { '9' }
}

/// Decimal notation of `n`, without leading zeros.
pub open spec fn decimal(n: nat) -> Seq<char>
    decreases n,
{
    if n < 10 { seq![digit_char(n as int)] } else { decimal(n / 10).push(digit_char((n % 10) as int)) }
}

/// Decimal notation of `n`, left-padded with zeros to at least `width` characters.
pub open spec fn zero_padded(n: nat, width: nat) -> Seq<char> {
    let d = decimal(n);
    if d.len() >= width { d } else { Seq::new((width - d.len()) as nat, |i: int| '0') + d }
}

/// `YYYY-MM-DDTHH:MM:SSZ` for the given fields.
pub open spec fn iso_text(y: nat, mo: nat, d: nat, h: nat, mi: nat, s: nat) -> Seq<char> {
    zero_padded(y, 4) + seq!['-'] + zero_padded(mo, 2) + seq!['-'] + zero_padded(d, 2) + seq!['T']
        + zero_padded(h, 2) + seq![':'] + zero_padded(mi, 2) + seq![':'] + zero_padded(s, 2) + seq![
        'Z',
    ]
}

/// The ISO-8601 text of the instant `secs` seconds after the epoch.
pub open spec fn timestamp_text(secs: nat, t: Seq<char>) -> bool {
    let days = secs / 86400;
    exists|y: nat, m: nat, d: nat|
        #![trigger iso_text(y, m, d, 0, 0, 0)]
        valid_date(y as int, m as int, d as int) && days_since_epoch(y as int, m as int, d as int)
            == days && t == iso_text(
            y,
            m,
            d,
            (secs / 3600) % 24,
            (secs / 60) % 60,
            secs % 60,
        )
}

fn digit(d: u64) -> (c: char)
    requires
        d < 10,
    ensures
        c == digit_char(d as int),
{
    if d == 0 { '0' } else if d == 1 { '1' } else if d == 2 { '2' } else if d == 3 { '3' }
    else if d == 4 { '4' } else if d == 5 { '5' } else if d == 6 { '6' } else if d == 7 { '7' }
    else if d == 8 { '8' } else { '9' }
}

/// Appends the decimal notation of `n`, zero-padded to `width`, to `out`.
pub(crate) fn push_padded(out: &mut String, n: u64, width: usize)
    requires
        width <= 4,
    ensures
        final(out)@ == old(out)@ + zero_padded(n as nat, width as nat),
{
    let mut digits: Vec<char> = Vec::new();
    let mut rest = n;
    // digits are produced least significant first
    loop
        invariant_except_break
            decimal(n as nat) == decimal(rest as nat) + digits@.reverse(),
            rest <= n,
        ensures
            decimal(n as nat) == digits@.reverse(),
        decreases rest,
    {
        let dc = digit(rest % 10);
        if rest < 10 {
            digits.push(dc);
            proof {
                assert(digits@.reverse() =~= seq![dc] + digits@.drop_last().reverse());
                assert(decimal(n as nat) =~= digits@.reverse());
            }
            break;
        }
        let ghost old_digits = digits@;
        digits.push(dc);
        proof {
            assert(decimal(rest as nat) == decimal((rest / 10) as nat).push(dc));
            assert(digits@.reverse() =~= seq![dc] + old_digits.reverse());
            assert(decimal(n as nat) =~= decimal((rest / 10) as nat) + digits@.reverse());
        }
        rest = rest / 10;
    }
    let ghost d = decimal(n as nat);
    assert(d == digits@.reverse());
    let len = digits.len();
    if len < width {
        let mut k: usize = len;
        while k < width
            invariant
                len <= k <= width,
                out@ == old(out)@ + Seq::new((k - len) as nat, |i: int| '0'),
            decreases width - k,
        {
            push_char(out, '0');
            proof {
                assert(Seq::new((k - len) as nat, |i: int| '0').push('0') =~= Seq::new(
                    (k + 1 - len) as nat,
                    |i: int| '0',
                ));
            }
            k = k + 1;
        }
    }
    let ghost before = out@;
    let mut j: usize = len;
    while j > 0
        invariant
            j <= len == digits@.len(),
            d == digits@.reverse(),
            out@ == before + d.take((len - j) as int),
        decreases j,
    {
        j = j - 1;
        push_char(out, digits[j]);
        proof {
            assert(d[(len - 1 - j) as int] == digits@[j as int]);
            assert(d.take((len - j) as int) =~= d.take((len - 1 - j) as int).push(digits@[j as int]));
        }
    }
    proof {
        assert(d.take(len as int) =~= d);
        if len < width {
            assert(zero_padded(n as nat, width as nat) =~= Seq::new((width - len) as nat, |i: int| '0') + d);
        }
    }
}

/// Renders the instant `secs` seconds after 1970-01-01T00:00:00Z as
/// `YYYY-MM-DDTHH:MM:SSZ`.
pub fn format_timestamp(secs: u64) -> (r: String)
    ensures
        timestamp_text(secs as nat, r@),
{
    let mins = secs / 60;
    let hours = mins / 60;
    let days_total = hours / 24;
    let hour = hours % 24;
    let min = mins % 60;
    let sec = secs % 60;
    let (year, month, day) = days_to_date(days_total);
    let mut out = String::new();
    push_padded(&mut out, year, 4);
    push_char(&mut out, '-');
    push_padded(&mut out, month, 2);
    push_char(&mut out, '-');
    push_padded(&mut out, day, 2);
    push_char(&mut out, 'T');
    push_padded(&mut out, hour, 2);
    push_char(&mut out, ':');
    push_padded(&mut out, min, 2);
    push_char(&mut out, ':');
    push_padded(&mut out, sec, 2);
    push_char(&mut out, 'Z');
    proof {
        assert(days_total == secs / 86400) by (nonlinear_arith)
            requires mins == secs / 60, hours == mins / 60, days_total == hours / 24;
        assert(hours == secs / 3600) by (nonlinear_arith)
            requires mins == secs / 60, hours == mins / 60;
        let t = iso_text(year as nat, month as nat, day as nat, hour as nat, min as nat, sec as nat);
        assert(out@ =~= t);
        assert(iso_text(year as nat, month as nat, day as nat, 0, 0, 0) == iso_text(year as nat, month as nat, day as nat, 0, 0, 0));
    }
    out
}


#[verifier::external_type_specification]
#[verifier::external_body]
pub struct ExSystemTime(SystemTime);

#[verifier::external_type_specification]
#[verifier::external_body]
pub struct ExSystemTimeError(SystemTimeError);

/// `SystemTime::now`: the current wall-clock time. It depends on the clock,
/// so nothing is claimed of it.
#[verifier::external_body]
fn system_now() -> SystemTime {
    SystemTime::now()
}

/// `SystemTime::duration_since(UNIX_EPOCH)`: the time elapsed since the
/// epoch, or an error when the clock stands before it. Nothing is claimed of
/// the value, which depends on the clock.
#[verifier::external_body]
fn since_unix_epoch(t: &SystemTime) -> Result<Duration, SystemTimeError> {
    t.duration_since(std::time::UNIX_EPOCH)
}

/// `Duration::as_secs`: the whole seconds of a duration. The duration is
/// opaque here, so nothing is claimed of the number.
#[verifier::external_body]
fn whole_seconds(d: &Duration) -> u64 {
    d.as_secs()
}

/// The current UTC time as `YYYY-MM-DDTHH:MM:SSZ`; a clock before the epoch
/// counts as the epoch itself.
pub fn chrono_now() -> (r: String)
    ensures
        exists|secs: nat| secs <= u64::MAX && #[trigger] timestamp_text(secs, r@),
{
    let now = system_now();
    let secs: u64 = match since_unix_epoch(&now) {
        Ok(d) => whole_seconds(&d),
        Err(_) => 0,
    };
    format_timestamp(secs)
}

} // verus!
