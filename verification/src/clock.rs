//! Wall-clock time, for display only. The time axes of a meeting do not come from
//! here: they must not run backwards when somebody sets the clock.

use crate::text::{decimal, digit_char, padded, padded_signed, push_padded};
use vstd::prelude::*;
use vstd::string::*;

verus! {

// ---------------------------------------------------------------------------
// The Gregorian calendar
// ---------------------------------------------------------------------------

pub open spec fn is_leap_year(y: int) -> bool {
    y % 4 == 0 && (y % 100 != 0 || y % 400 == 0)
}

pub open spec fn days_in_month(y: int, m: int) -> int {
    if m == 2 {
        if is_leap_year(y) {
            29
        } else {
            28
        }
    } else if m == 4 || m == 6 || m == 9 || m == 11 {
        30
    } else {
        31
    }
}

/// Whether the calendar has day `d` of month `m` in year `y`.
pub open spec fn is_date(y: int, m: int, d: int) -> bool {
    1 <= m <= 12 && 1 <= d <= days_in_month(y, m)
}

/// The days of the years from year 0 up to, and without, year `y`.
pub open spec fn days_before_year(y: int) -> int {
    365 * y + (y - 1) / 4 - (y - 1) / 100 + (y - 1) / 400 + 1
}

/// The days of year `y` before month `m`.
pub open spec fn days_before_month(y: int, m: int) -> int
    decreases m,
{
    if m <= 1 {
        0
    } else {
        days_before_month(y, m - 1) + days_in_month(y, m - 1)
    }
}

/// The number of the day, counted from 1970-01-01 as day 0.
pub open spec fn day_number(y: int, m: int, d: int) -> int {
    days_before_year(y) + days_before_month(y, m) + d - 1 - 719528
}

/// The date with day number `n`.
pub open spec fn calendar_date(n: int) -> (int, int, int) {
    choose|t: (int, int, int)| is_date(t.0, t.1, t.2) && #[trigger] day_number(t.0, t.1, t.2) == n
}

/// The date that follows a date.
pub open spec fn next_date(y: int, m: int, d: int) -> (int, int, int) {
    if d < days_in_month(y, m) {
        (y, m, d + 1)
    } else if m < 12 {
        (y, m + 1, 1)
    } else {
        (y + 1, 1, 1)
    }
}

proof fn lemma_month_starts(y: int)
    ensures
        days_before_month(y, 1) == 0,
        days_before_month(y, 2) == 31,
        days_before_month(y, 3) == 31 + days_in_month(y, 2),
        days_before_month(y, 4) == 62 + days_in_month(y, 2),
        days_before_month(y, 5) == 92 + days_in_month(y, 2),
        days_before_month(y, 6) == 123 + days_in_month(y, 2),
        days_before_month(y, 7) == 153 + days_in_month(y, 2),
        days_before_month(y, 8) == 184 + days_in_month(y, 2),
        days_before_month(y, 9) == 215 + days_in_month(y, 2),
        days_before_month(y, 10) == 245 + days_in_month(y, 2),
        days_before_month(y, 11) == 276 + days_in_month(y, 2),
        days_before_month(y, 12) == 306 + days_in_month(y, 2),
{
    reveal_with_fuel(days_before_month, 13);
}

proof fn lemma_quotient_step(y: int, c: int)
    requires
        c > 1,
    ensures
        y / c == (y - 1) / c + if y % c == 0 {
            1int
        } else {
            0int
        },
{
    let (q, r) = (y / c, y % c);
    let (p, s) = ((y - 1) / c, (y - 1) % c);
    vstd::arithmetic::div_mod::lemma_fundamental_div_mod(y, c);
    vstd::arithmetic::div_mod::lemma_fundamental_div_mod(y - 1, c);
    let k = q - p;
    assert(c * k == 1 + s - r) by (nonlinear_arith)
        requires
            y == c * q + r,
            y - 1 == c * p + s,
            k == q - p,
    ;
    assert(k == if r == 0 { 1int } else { 0int }) by (nonlinear_arith)
        requires
            c > 1,
            0 <= r < c,
            0 <= s < c,
            c * k == 1 + s - r,
    ;
}

proof fn lemma_multiples(y: int)
    ensures
        y % 400 == 0 ==> y % 100 == 0,
        y % 100 == 0 ==> y % 4 == 0,
{
}

proof fn lemma_year_length(y: int)
    ensures
        days_before_year(y + 1) == days_before_year(y) + if is_leap_year(y) {
            366int
        } else {
            365int
        },
{
    lemma_quotient_step(y, 4);
    lemma_quotient_step(y, 100);
    lemma_quotient_step(y, 400);
    lemma_multiples(y);
}

/// Day numbers count the days of the calendar one by one from 1970-01-01.
pub proof fn day_numbers_count_the_days(y: int, m: int, d: int)
    requires
        is_date(y, m, d),
    ensures
        day_number(1970, 1, 1) == 0,
        ({
            let (y2, m2, d2) = next_date(y, m, d);
            is_date(y2, m2, d2) && day_number(y2, m2, d2) == day_number(y, m, d) + 1
        }),
{
    lemma_month_starts(y);
    lemma_month_starts(y + 1);
    lemma_month_starts(1970);
    lemma_year_length(y);
}

proof fn lemma_years_grow(y1: int, y2: int)
    requires
        y1 <= y2,
    ensures
        days_before_year(y1) + 365 * (y2 - y1) <= days_before_year(y2),
    decreases y2 - y1,
{
    if y1 < y2 {
        lemma_years_grow(y1, y2 - 1);
        lemma_year_length(y2 - 1);
    }
}

proof fn lemma_day_number_in_year(y: int, m: int, d: int)
    requires
        is_date(y, m, d),
    ensures
        days_before_year(y) - 719528 <= day_number(y, m, d) < days_before_year(y + 1) - 719528,
{
    lemma_month_starts(y);
    lemma_year_length(y);
}

/// Whether one date comes before another in the calendar.
pub open spec fn date_before(a: (int, int, int), b: (int, int, int)) -> bool {
    a.0 < b.0 || (a.0 == b.0 && (a.1 < b.1 || (a.1 == b.1 && a.2 < b.2)))
}

/// An earlier date has a smaller day number.
pub proof fn day_numbers_follow_the_calendar(a: (int, int, int), b: (int, int, int))
    requires
        is_date(a.0, a.1, a.2),
        is_date(b.0, b.1, b.2),
        date_before(a, b),
    ensures
        day_number(a.0, a.1, a.2) < day_number(b.0, b.1, b.2),
{
    lemma_day_number_in_year(a.0, a.1, a.2);
    lemma_day_number_in_year(b.0, b.1, b.2);
    if a.0 < b.0 {
        lemma_years_grow(a.0 + 1, b.0);
    } else {
        lemma_month_starts(a.0);
    }
}

/// A day number belongs to one date only, so `calendar_date` gives that date.
pub proof fn calendar_date_is_the_date(y: int, m: int, d: int)
    requires
        is_date(y, m, d),
    ensures
        calendar_date(day_number(y, m, d)) == (y, m, d),
{
    let t = (y, m, d);
    assert(is_date(t.0, t.1, t.2) && day_number(t.0, t.1, t.2) == day_number(y, m, d));
    let c = calendar_date(day_number(y, m, d));
    assert(is_date(c.0, c.1, c.2) && day_number(c.0, c.1, c.2) == day_number(y, m, d));
    if date_before(c, t) {
        day_numbers_follow_the_calendar(c, t);
    }
    if date_before(t, c) {
        day_numbers_follow_the_calendar(t, c);
    }
}

// ---------------------------------------------------------------------------
// Dates from day numbers
// ---------------------------------------------------------------------------

/// The quotient rounded towards negative infinity.
fn floor_div(a: i64, b: i64) -> (q: i64)
    requires
        b > 1,
    ensures
        q == a as int / b as int,
{
    assert(i64::MIN <= a as int / b as int <= i64::MAX) by (nonlinear_arith)
        requires
            b > 1,
            i64::MIN <= a <= i64::MAX,
    ;
    match a.checked_div_euclid(b) {
        Some(q) => q,
        None => 0,
    }
}

/// The remainder that goes with `floor_div`.
fn floor_rem(a: i64, b: i64) -> (m: i64)
    requires
        b > 1,
    ensures
        m == a as int % b as int,
        0 <= m < b,
{
    match a.checked_rem_euclid(b) {
        Some(m) => m,
        None => 0,
    }
}

/// The year of the 400-year cycle that day `doe` of the cycle falls in, for years
/// that begin in March.
proof fn lemma_year_of_era(doe: int)
    requires
        0 <= doe < 146097,
    ensures
        ({
            let yoe = (doe - doe / 1460 + doe / 36524 - doe / 146096) / 365;
            let doy = doe - (365 * yoe + yoe / 4 - yoe / 100);
            &&& 0 <= yoe < 400
            &&& 0 <= doy <= 365
            &&& doy == 365 ==> (yoe + 1) % 4 == 0 && ((yoe + 1) % 100 != 0 || yoe == 399)
        }),
{
}

/// The month, counted from March as 0, that day `doy` of such a year falls in.
proof fn lemma_month_of_year(doy: int)
    requires
        0 <= doy <= 365,
    ensures
        ({
            let mp = (5 * doy + 2) / 153;
            let start = (153 * mp + 2) / 5;
            &&& 0 <= mp <= 11
            &&& start <= doy
            &&& mp == 0 ==> start == 0 && doy < 31
            &&& mp == 1 ==> start == 31 && doy < 61
            &&& mp == 2 ==> start == 61 && doy < 92
            &&& mp == 3 ==> start == 92 && doy < 122
            &&& mp == 4 ==> start == 122 && doy < 153
            &&& mp == 5 ==> start == 153 && doy < 184
            &&& mp == 6 ==> start == 184 && doy < 214
            &&& mp == 7 ==> start == 214 && doy < 245
            &&& mp == 8 ==> start == 245 && doy < 275
            &&& mp == 9 ==> start == 275 && doy < 306
            &&& mp == 10 ==> start == 306 && doy < 337
            &&& mp == 11 ==> start == 337
        }),
{
}

/// The first of January after March-year `yoe` of cycle `era`, counted in days.
proof fn lemma_march_year(era: int, yoe: int)
    requires
        0 <= yoe < 400,
    ensures
        ({
            let y = yoe + era * 400;
            days_before_year(y + 1) == 146097 * era + 365 * yoe + yoe / 4 - yoe / 100 + 366
        }),
{
    let y = yoe + era * 400;
    assert(y / 4 == yoe / 4 + 100 * era);
    assert(y / 100 == yoe / 100 + 4 * era);
    assert(y / 400 == era);
}

proof fn lemma_leap_in_era(era: int, yoe: int)
    requires
        (yoe + 1) % 4 == 0 && ((yoe + 1) % 100 != 0 || yoe == 399),
    ensures
        is_leap_year(yoe + era * 400 + 1),
{
    let y = yoe + 1 + era * 400;
    assert(y % 4 == (yoe + 1) % 4);
    assert(y % 100 == (yoe + 1) % 100);
    assert(yoe == 399 ==> y % 400 == 0);
}

proof fn lemma_civil(z: int, era: int, doe: int, yoe: int, doy: int, mp: int, d: int, m: int, year: int)
    requires
        z + 719468 == 146097 * era + doe,
        0 <= doe < 146097,
        yoe == (doe - doe / 1460 + doe / 36524 - doe / 146096) / 365,
        doy == doe - (365 * yoe + yoe / 4 - yoe / 100),
        mp == (5 * doy + 2) / 153,
        d == doy - (153 * mp + 2) / 5 + 1,
        m == if mp < 10 {
            mp + 3
        } else {
            mp - 9
        },
        year == if m <= 2 {
            yoe + era * 400 + 1
        } else {
            yoe + era * 400
        },
    ensures
        is_date(year, m, d),
        day_number(year, m, d) == z,
{
    lemma_year_of_era(doe);
    lemma_month_of_year(doy);
    lemma_march_year(era, yoe);
    lemma_month_starts(year);
    let y = yoe + era * 400;
    lemma_year_length(y);
    if doy == 365 {
        lemma_leap_in_era(era, yoe);
    }
}

/// Every day number has a date.
pub proof fn every_day_has_a_date(n: int)
    ensures
        ({
            let (y, m, d) = calendar_date(n);
            is_date(y, m, d) && day_number(y, m, d) == n
        }),
{
    let era = (n + 719468) / 146097;
    let doe = (n + 719468) % 146097;
    let yoe = (doe - doe / 1460 + doe / 36524 - doe / 146096) / 365;
    let doy = doe - (365 * yoe + yoe / 4 - yoe / 100);
    let mp = (5 * doy + 2) / 153;
    let d = doy - (153 * mp + 2) / 5 + 1;
    let m = if mp < 10 {
        mp + 3
    } else {
        mp - 9
    };
    let year = if m <= 2 {
        yoe + era * 400 + 1
    } else {
        yoe + era * 400
    };
    lemma_civil(n, era, doe, yoe, doy, mp, d, m, year);
    calendar_date_is_the_date(year, m, d);
}

/// The date of day `z`, counted from 1970-01-01 as day 0.
pub fn civil_from_days(z: i64) -> (r: (i64, u32, u32))
    requires
        z <= i64::MAX - 719468,
    ensures
        is_date(r.0 as int, r.1 as int, r.2 as int),
        day_number(r.0 as int, r.1 as int, r.2 as int) == z,
        (r.0 as int, r.1 as int, r.2 as int) == calendar_date(z as int),
{
    let z2: i64 = z + 719468;
    let era: i64 = floor_div(z2, 146097);
    let doe: i64 = floor_rem(z2, 146097);
    proof {
        lemma_year_of_era(doe as int);
    }
    let yoe: i64 = (doe - doe / 1460 + doe / 36524 - doe / 146096) / 365;
    let doy: i64 = doe - (365 * yoe + yoe / 4 - yoe / 100);
    proof {
        lemma_month_of_year(doy as int);
    }
    let y: i64 = yoe + era * 400;
    let mp: i64 = (5 * doy + 2) / 153;
    let d: u32 = (doy - (153 * mp + 2) / 5 + 1) as u32;
    let m: u32 = if mp < 10 { (mp + 3) as u32 } else { (mp - 9) as u32 };
    let year: i64 = if m <= 2 { y + 1 } else { y };
    proof {
        lemma_civil(
            z as int,
            era as int,
            doe as int,
            yoe as int,
            doy as int,
            mp as int,
            d as int,
            m as int,
            year as int,
        );
        calendar_date_is_the_date(year as int, m as int, d as int);
    }
    (year, m, d)
}

// ---------------------------------------------------------------------------
// Instants as text
// ---------------------------------------------------------------------------

/// The date on which the instant `ms` milliseconds after 1970 falls, in UTC.
pub open spec fn utc_date(ms: int) -> (int, int, int) {
    calendar_date(ms / 1000 / 86400)
}

/// The instant `ms` milliseconds after 1970 as `YYYY-MM-DDTHH:MM:SS.mmmZ`.
pub open spec fn utc_text(ms: int) -> Seq<char> {
    let (y, m, d) = utc_date(ms);
    let second = (ms / 1000) % 86400;
    let date = (padded_signed(y, 4).push('-') + padded(m as nat, 2)).push('-') + padded(
        d as nat,
        2,
    );
    let hm = (date.push('T') + padded((second / 3600) as nat, 2)).push(':') + padded(
        ((second % 3600) / 60) as nat,
        2,
    );
    ((hm.push(':') + padded((second % 60) as nat, 2)).push('.') + padded(
        (ms % 1000) as nat,
        3,
    )).push('Z')
}

/// The instant `ms` milliseconds after 1970 as `YYYY-MM-DDTHH:MM:SS.mmmZ`.
pub fn format_utc_millis(ms: i64) -> (r: String)
    ensures
        r@ == utc_text(ms as int),
{
    let secs: i64 = floor_div(ms, 1000);
    let millis: i64 = floor_rem(ms, 1000);
    let days: i64 = floor_div(secs, 86400);
    let rem: i64 = floor_rem(secs, 86400);
    assert(days <= 200_000_000_000_000) by (nonlinear_arith)
        requires
            days == secs as int / 86400,
            secs <= i64::MAX,
    ;
    let (y, m, d) = civil_from_days(days);
    let mut out = String::new();
    if y < 0 {
        assert(y > i64::MIN) by {
            if y == i64::MIN {
                lemma_years_far(y as int, m as int, d as int);
            }
        }
        out.push('-');
        push_padded(&mut out, (-y) as u64, 3);
    } else {
        push_padded(&mut out, y as u64, 4);
    }
    assert(out@ =~= padded_signed(y as int, 4));
    out.push('-');
    push_padded(&mut out, m as u64, 2);
    out.push('-');
    push_padded(&mut out, d as u64, 2);
    out.push('T');
    push_padded(&mut out, (rem / 3600) as u64, 2);
    out.push(':');
    push_padded(&mut out, ((rem % 3600) / 60) as u64, 2);
    out.push(':');
    push_padded(&mut out, (rem % 60) as u64, 2);
    out.push('.');
    push_padded(&mut out, millis as u64, 3);
    out.push('Z');
    out
}

/// A year this far back lies before every instant that fits the machine.
proof fn lemma_years_far(y: int, m: int, d: int)
    requires
        is_date(y, m, d),
        y <= -1_000_000_000_000_000,
    ensures
        day_number(y, m, d) < -300_000_000_000_000,
{
    lemma_day_number_in_year(y, m, d);
    lemma_years_grow(y + 1, 0);
}

/// `std::time::SystemTime`, as something that is passed on.
#[verifier::external_type_specification]
#[verifier::external_body]
pub struct ExSystemTime(std::time::SystemTime);

/// `std::time::SystemTimeError`, as something that is passed on.
#[verifier::external_type_specification]
#[verifier::external_body]
pub struct ExSystemTimeError(std::time::SystemTimeError);

/// `SystemTime::now` is whatever the clock says.
pub assume_specification[ std::time::SystemTime::now ]() -> std::time::SystemTime
;

/// `SystemTime::duration_since`, of which nothing is claimed: neither of its arguments is
/// something that anything is known of.
pub assume_specification[ std::time::SystemTime::duration_since ](
    s: &std::time::SystemTime,
    earlier: std::time::SystemTime,
) -> Result<std::time::Duration, std::time::SystemTimeError>
;

/// `Duration::as_millis`, of which nothing is claimed.
pub assume_specification[ std::time::Duration::as_millis ](d: &std::time::Duration) -> u128
;

/// `std::time::UNIX_EPOCH`, the beginning of 1970.
#[verifier::external_body]
fn epoch() -> std::time::SystemTime {
    std::time::UNIX_EPOCH
}

/// What a reading of the clock counts for: the whole milliseconds that have passed since 1970,
/// and 0 for a clock that is set before that.
pub fn reading_millis(since: Option<u128>) -> (ms: u128)
    ensures
        ms == match since {
            Some(passed) => passed,
            None => 0,
        },
{
    match since {
        Some(passed) => passed,
        None => 0,
    }
}

/// A count of milliseconds as the number that goes with a batch of events: its lower 64 bits.
pub fn stamp_millis(ms: u128) -> (r: u64)
    ensures
        r == ms % 0x1_0000_0000_0000_0000,
{
    (ms % 0x1_0000_0000_0000_0000) as u64
}

/// The clock read now. Which number that is depends on the clock alone, so nothing holds of it;
/// what the reading counts for is said by `reading_millis`.
pub(crate) fn wall_clock_millis() -> (ms: u128) {
    let since: Option<u128> = match std::time::SystemTime::now().duration_since(epoch()) {
        Ok(d) => Some(d.as_millis()),
        Err(_) => None,
    };
    reading_millis(since)
}

/// The present instant as text.
pub fn now_utc() -> (r: String)
    ensures
        exists|ms: i64| r@ == #[trigger] utc_text(ms as int),
{
    let ms: i64 = #[verifier::truncate] (wall_clock_millis() as i64);
    format_utc_millis(ms)
}

// ---------------------------------------------------------------------------
// Sorting instants by their text
// ---------------------------------------------------------------------------

/// Whether `a` and `b` differ first at position `k`, where `a` has the smaller
/// character or has ended.
pub open spec fn before_at(a: Seq<char>, b: Seq<char>, k: int) -> bool {
    &&& 0 <= k <= a.len()
    &&& k < b.len()
    &&& a.take(k) == b.take(k)
    &&& k == a.len() || a[k] < b[k]
}

/// Whether `a` sorts before `b` as plain text.
pub open spec fn text_before(a: Seq<char>, b: Seq<char>) -> bool {
    exists|k: int| before_at(a, b, k)
}

/// Two texts of one length, in order or the same.
spec fn in_order(a: Seq<char>, b: Seq<char>) -> bool {
    a.len() == b.len() && (a == b || text_before(a, b))
}

proof fn lemma_append_in_order(a: Seq<char>, b: Seq<char>, c: char, x: Seq<char>, y: Seq<char>)
    requires
        a.len() == b.len(),
        x.len() == y.len(),
        text_before(a, b) || (a == b && in_order(x, y)),
    ensures
        in_order(a.push(c) + x, b.push(c) + y),
        text_before(a, b) ==> text_before(a.push(c) + x, b.push(c) + y),
        a == b && text_before(x, y) ==> text_before(a.push(c) + x, b.push(c) + y),
{
    let p = a.push(c) + x;
    let q = b.push(c) + y;
    if text_before(a, b) {
        let k = choose|k: int| before_at(a, b, k);
        assert(p.take(k) =~= a.take(k));
        assert(q.take(k) =~= b.take(k));
        assert(before_at(p, q, k));
    }
    if a == b && text_before(x, y) {
        let k = choose|k: int| before_at(x, y, k);
        let n = a.len() + 1 + k;
        assert forall|i: int| 0 <= i < n implies p[i] == q[i] by {
            if i > a.len() {
                assert(x.take(k)[i - a.len() - 1] == y.take(k)[i - a.len() - 1]);
            }
        }
        assert(p.take(n) =~= q.take(n));
        assert(before_at(p, q, n));
    }
}

proof fn lemma_padded_digits(n: nat)
    ensures
        n < 100 ==> padded(n, 2) == seq![
            digit_char((n / 10) as int),
            digit_char((n % 10) as int),
        ],
        n < 1000 ==> padded(n, 3) == seq![
            digit_char((n / 100) as int),
            digit_char((n / 10 % 10) as int),
            digit_char((n % 10) as int),
        ],
        n < 10000 ==> padded(n, 4) == seq![
            digit_char((n / 1000) as int),
            digit_char((n / 100 % 10) as int),
            digit_char((n / 10 % 10) as int),
            digit_char((n % 10) as int),
        ],
{
    reveal_with_fuel(decimal, 5);
    let zero = digit_char(0);
    assert(zero == '0');
    if n < 100 {
        assert(padded(n, 2) =~= seq![
            digit_char((n / 10) as int),
            digit_char((n % 10) as int),
        ]);
    }
    if n < 1000 {
        assert(padded(n, 3) =~= seq![
            digit_char((n / 100) as int),
            digit_char((n / 10 % 10) as int),
            digit_char((n % 10) as int),
        ]);
    }
    if n < 10000 {
        assert(padded(n, 4) =~= seq![
            digit_char((n / 1000) as int),
            digit_char((n / 100 % 10) as int),
            digit_char((n / 10 % 10) as int),
            digit_char((n % 10) as int),
        ]);
    }
}

proof fn lemma_digits_of(n: nat)
    requires
        n < 10000,
    ensures
        n == 1000 * (n / 1000) + 100 * (n / 100 % 10) + 10 * (n / 10 % 10) + n % 10,
        n / 100 == 10 * (n / 1000) + n / 100 % 10,
        n / 10 == 10 * (n / 100) + n / 10 % 10,
        n == 10 * (n / 10) + n % 10,
        n / 1000 < 10,
{
    let (a, b, c) = (n / 10, n / 100, n / 1000);
    assert(n == 10 * a + n % 10);
    assert(b == a / 10);
    assert(a == 10 * b + a % 10);
    assert(c == b / 10);
    assert(b == 10 * c + b % 10);
}

/// Two runs of the same length whose first difference is a smaller character.
proof fn lemma_first_difference(a: Seq<char>, b: Seq<char>, k: int)
    requires
        a.len() == b.len(),
        0 <= k < a.len(),
        forall|i: int| 0 <= i < k ==> a[i] == b[i],
        a[k] < b[k],
    ensures
        text_before(a, b),
{
    assert(a.take(k) =~= b.take(k));
    assert(before_at(a, b, k));
}

proof fn lemma_field_order(m: nat, n: nat, w: int)
    requires
        w == 2 && n < 100 || w == 3 && n < 1000 || w == 4 && n < 10000,
        m <= n,
    ensures
        padded(m, w).len() == w,
        padded(n, w).len() == w,
        m < n ==> text_before(padded(m, w), padded(n, w)),
{
    lemma_padded_digits(m);
    lemma_padded_digits(n);
    lemma_digits_of(m);
    lemma_digits_of(n);
    let a = padded(m, w);
    let b = padded(n, w);
    if m < n {
        let (m3, m2, m1, m0) = (m / 1000, m / 100 % 10, m / 10 % 10, m % 10);
        let (n3, n2, n1, n0) = (n / 1000, n / 100 % 10, n / 10 % 10, n % 10);
        let k: int = if m3 != n3 {
            w - 4
        } else if m2 != n2 {
            w - 3
        } else if m1 != n1 {
            w - 2
        } else {
            w - 1
        };
        lemma_first_difference(a, b, k);
    }
}

spec fn date_text(t: (nat, nat, nat)) -> Seq<char> {
    (padded(t.0, 4).push('-') + padded(t.1, 2)).push('-') + padded(t.2, 2)
}

spec fn instant_text(t: (nat, nat, nat), second: nat, ms: nat) -> Seq<char> {
    let hm = (date_text(t).push('T') + padded(second / 3600, 2)).push(':') + padded(
        (second % 3600) / 60,
        2,
    );
    ((hm.push(':') + padded(second % 60, 2)).push('.') + padded(ms, 3)).push('Z')
}

proof fn lemma_sorted_dates(a: (nat, nat, nat), b: (nat, nat, nat))
    requires
        a.0 <= b.0 <= 9999,
        a.1 < 100,
        b.1 < 100,
        a.2 < 100,
        b.2 < 100,
        a == b || a.0 < b.0 || (a.0 == b.0 && (a.1 < b.1 || (a.1 == b.1 && a.2 < b.2))),
    ensures
        date_text(a).len() == 10,
        date_text(b).len() == 10,
        in_order(date_text(a), date_text(b)),
        a != b ==> text_before(date_text(a), date_text(b)),
{
    lemma_field_order(a.0, b.0, 4);
    lemma_field_order(a.1, a.1, 2);
    lemma_field_order(b.1, b.1, 2);
    lemma_field_order(a.2, a.2, 2);
    lemma_field_order(b.2, b.2, 2);
    if a.0 == b.0 && a.1 <= b.1 {
        lemma_field_order(a.1, b.1, 2);
    }
    if a.0 == b.0 && a.1 == b.1 {
        lemma_field_order(a.2, b.2, 2);
    }
    lemma_append_in_order(padded(a.0, 4), padded(b.0, 4), '-', padded(a.1, 2), padded(b.1, 2));
    lemma_append_in_order(
        padded(a.0, 4).push('-') + padded(a.1, 2),
        padded(b.0, 4).push('-') + padded(b.1, 2),
        '-',
        padded(a.2, 2),
        padded(b.2, 2),
    );
}

proof fn lemma_sorted_fields(
    a: (nat, nat, nat),
    b: (nat, nat, nat),
    sa: nat,
    sb: nat,
    ma: nat,
    mb: nat,
)
    requires
        a.0 <= b.0 <= 9999,
        a.1 < 100,
        b.1 < 100,
        a.2 < 100,
        b.2 < 100,
        a == b || a.0 < b.0 || (a.0 == b.0 && (a.1 < b.1 || (a.1 == b.1 && a.2 < b.2))),
        sa < 86400,
        sb < 86400,
        ma < 1000,
        mb < 1000,
        a == b ==> sa < sb || (sa == sb && ma < mb),
    ensures
        instant_text(a, sa, ma).len() == 24,
        instant_text(b, sb, mb).len() == 24,
        text_before(instant_text(a, sa, ma), instant_text(b, sb, mb)),
{
    lemma_sorted_dates(a, b);
    let (ha, hb) = (sa / 3600, sb / 3600);
    let (ia, ib) = ((sa % 3600) / 60, (sb % 3600) / 60);
    let (ca, cb) = (sa % 60, sb % 60);
    lemma_clock_fields(sa, sb);
    lemma_sorted_times(date_text(a), date_text(b), (ha, ia, ca), (hb, ib, cb), ma, mb);
}

proof fn lemma_clock_fields(sa: nat, sb: nat)
    requires
        sa < 86400,
        sb < 86400,
    ensures
        ({
            let (ha, hb) = (sa / 3600, sb / 3600);
            let (ia, ib) = ((sa % 3600) / 60, (sb % 3600) / 60);
            let (ca, cb) = (sa % 60, sb % 60);
            &&& ha < 24 && hb < 24 && ia < 60 && ib < 60 && ca < 60 && cb < 60
            &&& sa < sb ==> ha < hb || (ha == hb && (ia < ib || (ia == ib && ca < cb)))
        }),
{
    assert(sa == 3600 * (sa / 3600) + 60 * ((sa % 3600) / 60) + sa % 60);
    assert(sb == 3600 * (sb / 3600) + 60 * ((sb % 3600) / 60) + sb % 60);
}

proof fn lemma_sorted_times(
    d: Seq<char>,
    e: Seq<char>,
    a: (nat, nat, nat),
    b: (nat, nat, nat),
    ma: nat,
    mb: nat,
)
    requires
        d.len() == 10,
        e.len() == 10,
        text_before(d, e) || d == e,
        a.0 < 100 && a.1 < 100 && a.2 < 100 && ma < 1000,
        b.0 < 100 && b.1 < 100 && b.2 < 100 && mb < 1000,
        text_before(d, e) || a.0 < b.0 || (a.0 == b.0 && (a.1 < b.1 || (a.1 == b.1 && (a.2 < b.2
            || (a.2 == b.2 && ma < mb))))),
    ensures
        ({
            let t = ((((d.push('T') + padded(a.0, 2)).push(':') + padded(a.1, 2)).push(':')
                + padded(a.2, 2)).push('.') + padded(ma, 3)).push('Z');
            let u = ((((e.push('T') + padded(b.0, 2)).push(':') + padded(b.1, 2)).push(':')
                + padded(b.2, 2)).push('.') + padded(mb, 3)).push('Z');
            t.len() == 24 && u.len() == 24 && text_before(t, u)
        }),
{
    lemma_field_order(a.0, a.0, 2);
    lemma_field_order(b.0, b.0, 2);
    lemma_field_order(a.1, a.1, 2);
    lemma_field_order(b.1, b.1, 2);
    lemma_field_order(a.2, a.2, 2);
    lemma_field_order(b.2, b.2, 2);
    lemma_field_order(ma, ma, 3);
    lemma_field_order(mb, mb, 3);
    if a.0 < b.0 {
        lemma_field_order(a.0, b.0, 2);
    }
    if a.1 < b.1 {
        lemma_field_order(a.1, b.1, 2);
    }
    if a.2 < b.2 {
        lemma_field_order(a.2, b.2, 2);
    }
    if ma < mb {
        lemma_field_order(ma, mb, 3);
    }
    let (t1, u1) = (d.push('T') + padded(a.0, 2), e.push('T') + padded(b.0, 2));
    lemma_append_in_order(d, e, 'T', padded(a.0, 2), padded(b.0, 2));
    let (t2, u2) = (t1.push(':') + padded(a.1, 2), u1.push(':') + padded(b.1, 2));
    lemma_append_in_order(t1, u1, ':', padded(a.1, 2), padded(b.1, 2));
    let (t3, u3) = (t2.push(':') + padded(a.2, 2), u2.push(':') + padded(b.2, 2));
    lemma_append_in_order(t2, u2, ':', padded(a.2, 2), padded(b.2, 2));
    let (t4, u4) = (t3.push('.') + padded(ma, 3), u3.push('.') + padded(mb, 3));
    lemma_append_in_order(t3, u3, '.', padded(ma, 3), padded(mb, 3));
    let k = choose|k: int| before_at(t4, u4, k);
    let (t5, u5) = (t4.push('Z'), u4.push('Z'));
    assert(t5.take(k) =~= t4.take(k));
    assert(u5.take(k) =~= u4.take(k));
    assert(before_at(t5, u5, k));
}

/// The text of an earlier instant sorts before that of a later one, and both have
/// the same length, as long as the years have four digits.
pub proof fn instants_sort_as_text(a: int, b: int)
    requires
        a < b,
        0 <= utc_date(a).0,
        utc_date(b).0 <= 9999,
    ensures
        utc_text(a).len() == 24,
        utc_text(b).len() == 24,
        text_before(utc_text(a), utc_text(b)),
{
    let (ya, ma, da) = utc_date(a);
    let (yb, mb, db) = utc_date(b);
    let (na, nb) = (a / 1000 / 86400, b / 1000 / 86400);
    every_day_has_a_date(na);
    every_day_has_a_date(nb);
    let (sa, sb) = ((a / 1000) % 86400, (b / 1000) % 86400);
    assert(na < nb || na == nb && (sa < sb || sa == sb && a % 1000 < b % 1000));
    if na < nb && date_before((yb, mb, db), (ya, ma, da)) {
        day_numbers_follow_the_calendar((yb, mb, db), (ya, ma, da));
    }
    lemma_sorted_fields(
        (ya as nat, ma as nat, da as nat),
        (yb as nat, mb as nat, db as nat),
        sa as nat,
        sb as nat,
        (a % 1000) as nat,
        (b % 1000) as nat,
    );
}

} // verus!
