//! Instants as Unix seconds and as `YYYY-MM-DDTHH:MM:SSZ`, the format of the snapshot series.

use vstd::prelude::*;

use crate::text::{ascii_digit, push_padded, to_chars};
#[allow(unused_imports)]
use crate::text::{decimal, digit, is_digit, padded, text_lt, };

verus! {

pub const SECONDS_PER_DAY: i64 = 86_400;

// ---------------------------------------------------------------- the calendar

/// The leap years of the Gregorian calendar.
pub open spec fn leap(y: int) -> bool {
    y % 4 == 0 && (y % 100 != 0 || y % 400 == 0)
}

pub open spec fn days_in_month(y: int, m: int) -> int {
    if m == 2 {
        if leap(y) {
            29
        } else {
            28
        }
    } else if m == 4 || m == 6 || m == 9 || m == 11 {
        30
    } else {
        31
    }
}

/// The days of a year that lie before the first of a month.
pub open spec fn days_before_month(y: int, m: int) -> int
    decreases m,
{
    if m <= 1 {
        0
    } else {
        days_before_month(y, m - 1) + days_in_month(y, m - 1)
    }
}

/// The days from the first of January of year zero to that of year `y`.
pub open spec fn days_before_year(y: int) -> int {
    365 * y + (y + 3) / 4 - (y + 99) / 100 + (y + 399) / 400
}

/// A year, a month and a day that the calendar has.
pub open spec fn valid_date(date: (int, int, int)) -> bool {
    1 <= date.1 <= 12 && 1 <= date.2 <= days_in_month(date.0, date.1)
}

/// The days from the first of January 1970 to a date.
pub open spec fn day_number(date: (int, int, int)) -> int {
    days_before_year(date.0) + days_before_month(date.0, date.1) + date.2 - 1 - 719_528
}

/// The date that lies so many days behind the first of January 1970.
pub open spec fn civil(days: int) -> (int, int, int) {
    choose|date: (int, int, int)| valid_date(date) && #[trigger] day_number(date) == days
}

/// Every year is as long as its months.
pub proof fn lemma_year_length(y: int)
    ensures
        days_before_year(y + 1) - days_before_year(y) == days_before_month(y, 13),
        days_before_year(y + 1) - days_before_year(y) == (if leap(y) {
            366int
        } else {
            365
        }),
{
    reveal_with_fuel(days_before_month, 14);
}

proof fn lemma_month_within_year(y: int, m: int)
    requires
        1 <= m <= 12,
    ensures
        0 <= days_before_month(y, m),
        days_before_month(y, m) + days_in_month(y, m) <= days_before_month(y, 13),
{
    reveal_with_fuel(days_before_month, 14);
}

proof fn lemma_months_in_order(y: int, m: int, n: int)
    requires
        1 <= m < n <= 13,
    ensures
        days_before_month(y, m) + days_in_month(y, m) <= days_before_month(y, n),
{
    reveal_with_fuel(days_before_month, 14);
}

proof fn lemma_years_in_order(y: int, z: int)
    requires
        y < z,
    ensures
        days_before_year(y + 1) <= days_before_year(z),
{
}

/// Whether one date comes before another: by year, then month, then day.
pub open spec fn date_lt(a: (int, int, int), b: (int, int, int)) -> bool {
    a.0 < b.0 || (a.0 == b.0 && (a.1 < b.1 || (a.1 == b.1 && a.2 < b.2)))
}

/// Dates come in the order of their day numbers.
pub proof fn lemma_dates_in_order(a: (int, int, int), b: (int, int, int))
    requires
        valid_date(a),
        valid_date(b),
    ensures
        date_lt(a, b) <==> day_number(a) < day_number(b),
        a == b <==> day_number(a) == day_number(b),
{
    if date_lt(a, b) {
        lemma_dates_in_order_one_way(a, b);
    } else if date_lt(b, a) {
        lemma_dates_in_order_one_way(b, a);
    }
}

proof fn lemma_dates_in_order_one_way(a: (int, int, int), b: (int, int, int))
    requires
        valid_date(a),
        valid_date(b),
        date_lt(a, b),
    ensures
        day_number(a) < day_number(b),
{
    lemma_month_within_year(a.0, a.1);
    lemma_month_within_year(b.0, b.1);
    if a.0 < b.0 {
        lemma_years_in_order(a.0, b.0);
        lemma_year_length(a.0);
    } else if a.1 < b.1 {
        lemma_months_in_order(a.0, a.1, b.1);
    }
}

/// A date is the one that its day number stands for.
pub proof fn lemma_civil_of_day_number(date: (int, int, int))
    requires
        valid_date(date),
    ensures
        civil(day_number(date)) == date,
{
    let found = civil(day_number(date));
    assert(valid_date(found) && day_number(found) == day_number(date));
    lemma_dates_in_order(date, found);
}

proof fn lemma_year_of_era(doe: int, yoe: int)
    requires
        0 <= doe <= 146_096,
        yoe == (doe - doe / 1460 + doe / 36_524 - doe / 146_096) / 365,
    ensures
        0 <= yoe <= 399,
        365 * yoe + yoe / 4 - yoe / 100 <= doe,
        yoe < 399 ==> doe < 365 * (yoe + 1) + (yoe + 1) / 4 - (yoe + 1) / 100,
{
}

/// The days before each month, written out.
proof fn lemma_month_table(y: int, m: int)
    requires
        1 <= m <= 12,
    ensures
        days_before_month(y, m) == (if m <= 2 {
            31 * (m - 1)
        } else {
            (153 * (m - 3) + 2) / 5 + 59 + (if leap(y) {
                1int
            } else {
                0
            })
        }),
{
    reveal_with_fuel(days_before_month, 14);
}

/// The months of a year that begins in March, and the days in them.
proof fn lemma_day_of_march_year(doy: int, mp: int, d: int)
    requires
        0 <= doy <= 365,
        mp == (5 * doy + 2) / 153,
        d == doy - (153 * mp + 2) / 5 + 1,
    ensures
        0 <= mp <= 11,
        1 <= d <= 31,
        mp == 1 || mp == 3 || mp == 6 || mp == 8 ==> d <= 30,
        mp == 11 ==> d <= 29,
{
}

/// The year behind the one that begins in March of year `yoe` of an era.
proof fn lemma_era(era: int, yoe: int)
    requires
        0 <= yoe <= 399,
    ensures
        days_before_year(yoe + era * 400 + 1) == era * 146_097 + 365 * yoe + yoe / 4 - yoe / 100
            + 366,
        yoe < 399 ==> (leap(yoe + era * 400 + 1) <==> (yoe + 1) / 4 - yoe / 4 - (yoe + 1) / 100
            + yoe / 100 == 1),
        yoe < 399 ==> (!leap(yoe + era * 400 + 1) <==> (yoe + 1) / 4 - yoe / 4 - (yoe + 1) / 100
            + yoe / 100 == 0),
        yoe == 399 ==> leap(yoe + era * 400 + 1),
{
    let y = yoe + era * 400 + 1;
    assert((y + 3) / 4 == 100 * era + (yoe + 4) / 4);
    assert((y + 99) / 100 == 4 * era + (yoe + 100) / 100);
    assert((y + 399) / 400 == era + (yoe + 400) / 400);
    assert(y % 4 == (yoe + 1) % 4);
    assert(y % 100 == (yoe + 1) % 100);
    assert(y % 400 == (yoe + 1) % 400);
}

/// The year, month and day that a day within a year beginning in March falls on.
proof fn lemma_march_year(era: int, yoe: int, doy: int, mp: int, y: int, m: int, d: int)
    requires
        0 <= yoe <= 399,
        0 <= doy <= 365,
        yoe < 399 ==> doy < 365 + (yoe + 1) / 4 - yoe / 4 - (yoe + 1) / 100 + yoe / 100,
        mp == (5 * doy + 2) / 153,
        d == doy - (153 * mp + 2) / 5 + 1,
        m == (if mp < 10 {
            mp + 3
        } else {
            mp - 9
        }),
        y == yoe + era * 400 + (if m <= 2 {
            1int
        } else {
            0
        }),
    ensures
        valid_date((y, m, d)),
        day_number((y, m, d)) == era * 146_097 + 365 * yoe + yoe / 4 - yoe / 100 + doy - 719_468,
{
    let march = yoe + era * 400;
    lemma_day_of_march_year(doy, mp, d);
    lemma_month_table(y, m);
    lemma_era(era, yoe);
    if m <= 2 {
        assert(days_before_month(y, m) == (153 * mp + 2) / 5 - 306);
        if m == 2 {
            assert(d == 29 ==> doy == 365);
        }
    } else {
        assert(days_before_month(y, m) == (153 * mp + 2) / 5 + 59 + (if leap(y) {
            1int
        } else {
            0
        }));
        lemma_year_length(march);
    }
}

/// Every day has a date.
proof fn lemma_every_day_has_a_date(days: int)
    ensures
        valid_date(civil(days)),
        day_number(civil(days)) == days,
{
    let z = days + 719_468;
    let era = z / 146_097;
    let doe = z % 146_097;
    let yoe = (doe - doe / 1460 + doe / 36_524 - doe / 146_096) / 365;
    let doy = doe - (365 * yoe + yoe / 4 - yoe / 100);
    let mp = (5 * doy + 2) / 153;
    let d = doy - (153 * mp + 2) / 5 + 1;
    let m = if mp < 10 {
        mp + 3
    } else {
        mp - 9
    };
    let y = yoe + era * 400 + (if m <= 2 {
        1int
    } else {
        0
    });
    lemma_year_of_era(doe, yoe);
    lemma_march_year(era, yoe, doy, mp, y, m, d);
    let date = (y, m, d);
    assert(valid_date(date) && day_number(date) == days);
}

/// The day that an instant falls on, counted from the first of January 1970.
fn day_of(unix: i64) -> (q: i64)
    ensures
        q == unix as int / 86_400,
{
    if unix % 86_400 < 0 {
        unix / 86_400 - 1
    } else {
        unix / 86_400
    }
}

/// The second of the day that an instant falls on.
fn second_of(unix: i64) -> (r: i64)
    ensures
        r == unix as int % 86_400,
{
    if unix % 86_400 < 0 {
        unix % 86_400 + 86_400
    } else {
        unix % 86_400
    }
}

/// The date of a day counted from the first of January 1970.
pub fn civil_from_days(days: i64) -> (date: (i64, i64, i64))
    requires
        days <= i64::MAX - 719_468,
    ensures
        (date.0 as int, date.1 as int, date.2 as int) == civil(days as int),
        valid_date(civil(days as int)),
        day_number(civil(days as int)) == days,
{
    let z: i64 = days + 719_468;
    let (era, doe): (i64, i64) = if z % 146_097 < 0 {
        (z / 146_097 - 1, z % 146_097 + 146_097)
    } else {
        (z / 146_097, z % 146_097)
    };
    let yoe: i64 = (doe - doe / 1460 + doe / 36_524 - doe / 146_096) / 365;
    proof {
        lemma_year_of_era(doe as int, yoe as int);
    }
    let doy: i64 = doe - (365 * yoe + yoe / 4 - yoe / 100);
    let mp: i64 = (5 * doy + 2) / 153;
    let d: i64 = doy - (153 * mp + 2) / 5 + 1;
    let m: i64 = if mp < 10 {
        mp + 3
    } else {
        mp - 9
    };
    let y: i64 = yoe + era * 400 + if m <= 2 {
        1
    } else {
        0
    };
    proof {
        lemma_march_year(
            era as int,
            yoe as int,
            doy as int,
            mp as int,
            y as int,
            m as int,
            d as int,
        );
        lemma_civil_of_day_number((y as int, m as int, d as int));
    }
    (y, m, d)
}

// ---------------------------------------------------------------- writing an instant

/// `YYYY-MM-DD`.
pub open spec fn date_text(date: (int, int, int)) -> Seq<char> {
    padded(date.0, 4) + seq!['-'] + padded(date.1, 2) + seq!['-'] + padded(date.2, 2)
}

/// `HH:MM:SS` for a second of the day.
pub open spec fn clock_text(second: int) -> Seq<char> {
    padded(second / 3600, 2) + seq![':'] + padded((second / 60) % 60, 2) + seq![':'] + padded(
        second % 60,
        2,
    )
}

/// The date that an instant falls on.
pub open spec fn date_of(unix: int) -> Seq<char> {
    date_text(civil(unix / 86_400))
}

/// An instant as `YYYY-MM-DDTHH:MM:SSZ`.
pub open spec fn iso8601(unix: int) -> Seq<char> {
    date_of(unix) + seq!['T'] + clock_text(unix % 86_400) + seq!['Z']
}

fn push_date(out: &mut String, unix: i64)
    ensures
        final(out)@ == old(out)@ + date_of(unix as int),
{
    let (y, m, d) = civil_from_days(day_of(unix));
    push_padded(out, y, 4);
    out.push('-');
    push_padded(out, m, 2);
    out.push('-');
    push_padded(out, d, 2);
    assert(out@ =~= old(out)@ + date_of(unix as int));
}

/// `YYYY-MM-DDTHH:MM:SSZ`, the format the snapshot series has used since day one.
pub fn iso8601_utc(unix: i64) -> (r: String)
    ensures
        r@ == iso8601(unix as int),
{
    let mut out = String::new();
    push_date(&mut out, unix);
    let rem: i64 = second_of(unix);
    out.push('T');
    push_padded(&mut out, rem / 3600, 2);
    out.push(':');
    push_padded(&mut out, (rem / 60) % 60, 2);
    out.push(':');
    push_padded(&mut out, rem % 60, 2);
    out.push('Z');
    assert(out@ =~= iso8601(unix as int));
    out
}

pub fn date_utc(unix: i64) -> (r: String)
    ensures
        r@ == date_of(unix as int),
{
    let mut out = String::new();
    push_date(&mut out, unix);
    assert(out@ =~= date_of(unix as int));
    out
}

// ---------------------------------------------------------------- reading an instant

/// The first second of year zero.
pub const FIRST_INSTANT: i64 = -62_167_219_200;

/// The last second of year 9999.
pub const LAST_INSTANT: i64 = 253_402_300_799;

/// The instants whose year has four digits.
pub open spec fn is_instant(unix: int) -> bool {
    FIRST_INSTANT <= unix <= LAST_INSTANT
}

/// The instant that a text writes.
pub open spec fn instant_of(s: Seq<char>) -> Option<int> {
    if exists|u: int| is_instant(u) && #[trigger] iso8601(u) == s {
        Some(choose|u: int| is_instant(u) && #[trigger] iso8601(u) == s)
    } else {
        None
    }
}

/// Two digits that stand somewhere in a text.
pub open spec fn pair_at(s: Seq<char>, i: int, n: int) -> bool {
    s[i] == digit(n / 10) && s[i + 1] == digit(n % 10)
}

/// Where the separators stand in a written instant.
pub open spec fn has_separators(s: Seq<char>) -> bool {
    s.len() == 20 && s[4] == '-' && s[7] == '-' && s[10] == 'T' && s[13] == ':' && s[16] == ':'
        && s[19] == 'Z'
}

/// A text that writes a date and a second of the day, digit by digit.
pub open spec fn writes(s: Seq<char>, date: (int, int, int), second: int) -> bool {
    &&& has_separators(s)
    &&& pair_at(s, 0, date.0 / 100)
    &&& pair_at(s, 2, date.0 % 100)
    &&& pair_at(s, 5, date.1)
    &&& pair_at(s, 8, date.2)
    &&& pair_at(s, 11, second / 3600)
    &&& pair_at(s, 14, (second / 60) % 60)
    &&& pair_at(s, 17, second % 60)
}

proof fn lemma_two(n: int)
    requires
        0 <= n <= 99,
    ensures
        padded(n, 2) == seq![digit(n / 10), digit(n % 10)],
{
    reveal_with_fuel(decimal, 3);
    assert(padded(n, 2) =~= seq![digit(n / 10), digit(n % 10)]);
}

proof fn lemma_four(n: int)
    requires
        0 <= n <= 9999,
    ensures
        padded(n, 4) == seq![
            digit(n / 100 / 10),
            digit(n / 100 % 10),
            digit(n % 100 / 10),
            digit(n % 100 % 10),
        ],
{
    reveal_with_fuel(decimal, 5);
    assert(padded(n, 4) =~= seq![
        digit(n / 100 / 10),
        digit(n / 100 % 10),
        digit(n % 100 / 10),
        digit(n % 100 % 10),
    ]);
}

/// The instants of a year with four digits are those of the years 0 to 9999.
proof fn lemma_instant_year(unix: int)
    ensures
        is_instant(unix) <==> 0 <= civil(unix / 86_400).0 <= 9999,
        valid_date(civil(unix / 86_400)),
        day_number(civil(unix / 86_400)) == unix / 86_400,
{
    lemma_every_day_has_a_date(unix / 86_400);
    let date = civil(unix / 86_400);
    lemma_month_table(0, 1);
    lemma_month_table(9999, 12);
    lemma_dates_in_order(date, (0, 1, 1));
    lemma_dates_in_order((9999, 12, 31), date);
    assert(day_number((0, 1, 1)) == -719_528);
    assert(day_number((9999, 12, 31)) == 2_932_896);
}

proof fn lemma_iso8601_writes(unix: int)
    requires
        is_instant(unix),
    ensures
        writes(iso8601(unix), civil(unix / 86_400), unix % 86_400),
{
    lemma_instant_year(unix);
    let date = civil(unix / 86_400);
    let second = unix % 86_400;
    lemma_four(date.0);
    lemma_two(date.1);
    lemma_two(date.2);
    lemma_two(second / 3600);
    lemma_two((second / 60) % 60);
    lemma_two(second % 60);
}

/// An instant before year zero has a negative year.
pub proof fn lemma_date_before_year_zero(unix: int)
    requires
        unix < FIRST_INSTANT,
    ensures
        civil(unix / 86_400).0 < 0,
{
    lemma_every_day_has_a_date(unix / 86_400);
    lemma_month_table(0, 1);
    lemma_dates_in_order(civil(unix / 86_400), (0, 1, 1));
    assert(day_number((0, 1, 1)) == -719_528);
}

/// A written instant begins with a digit.
pub proof fn lemma_first_character(unix: int)
    requires
        is_instant(unix),
    ensures
        iso8601(unix).len() == 20,
        is_digit(iso8601(unix)[0]),
{
    lemma_iso8601_writes(unix);
    lemma_instant_year(unix);
}

/// An instant is written in twenty characters, its date in the first ten.
pub proof fn law_instants_have_twenty_characters(unix: int)
    requires
        is_instant(unix),
    ensures
        iso8601(unix).len() == 20,
        date_of(unix).len() == 10,
        iso8601(unix).take(10) == date_of(unix),
{
    lemma_iso8601_writes(unix);
    lemma_instant_year(unix);
    let date = civil(unix / 86_400);
    lemma_four(date.0);
    lemma_two(date.1);
    lemma_two(date.2);
    assert(iso8601(unix).take(10) =~= date_of(unix));
}

/// Of two texts the one with the smaller character at the first difference sorts first.
proof fn lemma_lt_at(a: Seq<char>, b: Seq<char>, k: int)
    requires
        0 <= k < a.len(),
        k < b.len(),
        forall|j: int| 0 <= j < k ==> a[j] == b[j],
        a[k] < b[k],
    ensures
        text_lt(a, b),
    decreases k,
{
    if k > 0 {
        assert(a[0] == b[0]);
        assert forall|j: int| 0 <= j < k - 1 implies a.skip(1)[j] == b.skip(1)[j] by {
            assert(a[j + 1] == b[j + 1]);
        }
        lemma_lt_at(a.skip(1), b.skip(1), k - 1);
    }
}

/// Two texts that agree before a field sort by that field.
proof fn lemma_lt_pair(a: Seq<char>, b: Seq<char>, i: int, n: int, m: int)
    requires
        0 <= i,
        i + 1 < a.len(),
        i + 1 < b.len(),
        forall|j: int| 0 <= j < i ==> a[j] == b[j],
        pair_at(a, i, n),
        pair_at(b, i, m),
        0 <= n < m <= 99,
    ensures
        text_lt(a, b),
{
    if n / 10 < m / 10 {
        lemma_lt_at(a, b, i);
    } else {
        assert(n % 10 < m % 10);
        lemma_lt_at(a, b, i + 1);
    }
}

#[verifier::spinoff_prover]
#[verifier::rlimit(60)]
proof fn lemma_earlier_sorts_first(
    s: Seq<char>,
    t: Seq<char>,
    a: (int, int, int),
    b: (int, int, int),
    x: int,
    y: int,
)
    requires
        valid_date(a),
        valid_date(b),
        0 <= a.0 <= 9999,
        0 <= b.0 <= 9999,
        0 <= x < 86_400,
        0 <= y < 86_400,
        date_lt(a, b) || (a == b && x < y),
        writes(s, a, x),
        writes(t, b, y),
    ensures
        text_lt(s, t),
{
    if a.0 / 100 < b.0 / 100 {
        lemma_lt_pair(s, t, 0, a.0 / 100, b.0 / 100);
    } else if a.0 % 100 < b.0 % 100 {
        lemma_lt_pair(s, t, 2, a.0 % 100, b.0 % 100);
    } else if a.1 < b.1 {
        lemma_lt_pair(s, t, 5, a.1, b.1);
    } else if a.2 < b.2 {
        lemma_lt_pair(s, t, 8, a.2, b.2);
    } else if x / 3600 < y / 3600 {
        lemma_lt_pair(s, t, 11, x / 3600, y / 3600);
    } else if (x / 60) % 60 < (y / 60) % 60 {
        lemma_lt_pair(s, t, 14, (x / 60) % 60, (y / 60) % 60);
    } else {
        lemma_lt_pair(s, t, 17, x % 60, y % 60);
    }
}

proof fn lemma_earlier_instant_sorts_first(a: int, b: int)
    requires
        is_instant(a),
        is_instant(b),
        a < b,
    ensures
        text_lt(iso8601(a), iso8601(b)),
{
    lemma_iso8601_writes(a);
    lemma_iso8601_writes(b);
    lemma_instant_year(a);
    lemma_instant_year(b);
    let (da, db) = (civil(a / 86_400), civil(b / 86_400));
    lemma_dates_in_order(da, db);
    lemma_earlier_sorts_first(iso8601(a), iso8601(b), da, db, a % 86_400, b % 86_400);
}

/// Sorting written instants as text sorts them in time.
pub proof fn law_text_order_is_time_order(a: int, b: int)
    requires
        is_instant(a),
        is_instant(b),
    ensures
        a < b <==> text_lt(iso8601(a), iso8601(b)),
        a == b <==> iso8601(a) == iso8601(b),
{
    crate::text::lemma_text_order_total(iso8601(a), iso8601(b));
    if a < b {
        lemma_earlier_instant_sorts_first(a, b);
    } else if b < a {
        lemma_earlier_instant_sorts_first(b, a);
    }
}

/// Reading what was written gives the instant back.
pub proof fn law_reading_undoes_writing(unix: int)
    requires
        is_instant(unix),
    ensures
        instant_of(iso8601(unix)) == Some(unix),
{
    let s = iso8601(unix);
    assert(is_instant(unix) && iso8601(unix) == s);
    let found = choose|u: int| is_instant(u) && #[trigger] iso8601(u) == s;
    law_text_order_is_time_order(unix, found);
}

/// Writing what was read gives the text back.
pub proof fn law_writing_undoes_reading(s: Seq<char>)
    ensures
        instant_of(s) matches Some(u) ==> is_instant(u) && iso8601(u) == s,
{
}

/// The number that two digits write.
fn read_two(v: &Vec<char>, i: usize) -> (r: Option<i64>)
    requires
        i + 1 < v.len(),
    ensures
        match r {
            Some(n) => 0 <= n <= 99 && pair_at(v@, i as int, n as int),
            None => !(is_digit(v@[i as int]) && is_digit(v@[i + 1])),
        },
{
    let (a, b) = (v[i], v[i + 1]);
    if ascii_digit(a) && ascii_digit(b) {
        let n: i64 = (a as u32 as i64 - 48) * 10 + (b as u32 as i64 - 48);
        Some(n)
    } else {
        None
    }
}

/// The length of a month, for a month that there is.
fn month_days(y: i64, m: i64) -> (r: i64)
    requires
        0 <= y <= 9999,
    ensures
        r == days_in_month(y as int, m as int),
{
    if m == 2 {
        if y % 4 == 0 && (y % 100 != 0 || y % 400 == 0) {
            29
        } else {
            28
        }
    } else if m == 4 || m == 6 || m == 9 || m == 11 {
        30
    } else {
        31
    }
}

/// The fields of a written instant are all digits.
proof fn lemma_written_shape(s: Seq<char>)
    requires
        instant_of(s) is Some,
    ensures
        has_separators(s),
        is_digit(s[0]) && is_digit(s[1]) && is_digit(s[2]) && is_digit(s[3]),
        is_digit(s[5]) && is_digit(s[6]) && is_digit(s[8]) && is_digit(s[9]),
        is_digit(s[11]) && is_digit(s[12]) && is_digit(s[14]) && is_digit(s[15]),
        is_digit(s[17]) && is_digit(s[18]),
{
    let u = instant_of(s).unwrap();
    lemma_iso8601_writes(u);
    lemma_instant_year(u);
}

proof fn lemma_pair_unique(s: Seq<char>, i: int, n: int, m: int)
    requires
        0 <= n <= 99,
        0 <= m <= 99,
        pair_at(s, i, n),
        pair_at(s, i, m),
    ensures
        n == m,
{
}

/// The fields that a text shows, as a parser reads them off it.
pub open spec fn shows(
    s: Seq<char>,
    date: (int, int, int),
    hour: int,
    minute: int,
    second: int,
) -> bool {
    &&& has_separators(s)
    &&& 0 <= date.0 <= 9999
    &&& 0 <= date.1 <= 99
    &&& 0 <= date.2 <= 99
    &&& 0 <= hour <= 99
    &&& 0 <= minute <= 99
    &&& 0 <= second <= 99
    &&& pair_at(s, 0, date.0 / 100)
    &&& pair_at(s, 2, date.0 % 100)
    &&& pair_at(s, 5, date.1)
    &&& pair_at(s, 8, date.2)
    &&& pair_at(s, 11, hour)
    &&& pair_at(s, 14, minute)
    &&& pair_at(s, 17, second)
}

/// The fields of a written instant are those of its date and its second of the day.
proof fn lemma_written_fields(s: Seq<char>, date: (int, int, int), h: int, mi: int, sec: int)
    requires
        instant_of(s) is Some,
        shows(s, date, h, mi, sec),
    ensures
        valid_date(date),
        h <= 23,
        mi <= 59,
        sec <= 59,
{
    let u = instant_of(s).unwrap();
    lemma_iso8601_writes(u);
    lemma_instant_year(u);
    let c = civil(u / 86_400);
    let t = u % 86_400;
    lemma_pair_unique(s, 0, c.0 / 100, date.0 / 100);
    lemma_pair_unique(s, 2, c.0 % 100, date.0 % 100);
    lemma_pair_unique(s, 5, c.1, date.1);
    lemma_pair_unique(s, 8, c.2, date.2);
    lemma_pair_unique(s, 11, t / 3600, h);
    lemma_pair_unique(s, 14, (t / 60) % 60, mi);
    lemma_pair_unique(s, 17, t % 60, sec);
    assert(c == date);
}

proof fn lemma_clock(days: int, h: int, mi: int, sec: int, unix: int)
    requires
        0 <= h <= 23,
        0 <= mi <= 59,
        0 <= sec <= 59,
        unix == days * 86_400 + h * 3600 + mi * 60 + sec,
    ensures
        unix / 86_400 == days,
        unix % 86_400 / 3600 == h,
        (unix % 86_400 / 60) % 60 == mi,
        unix % 86_400 % 60 == sec,
{
    let t = h * 3600 + mi * 60 + sec;
    assert(unix / 86_400 == days);
    assert(unix % 86_400 == t);
    assert(t / 60 == h * 60 + mi);
}

/// Texts that write the same fields are the same.
proof fn lemma_written_once(s: Seq<char>, t: Seq<char>, date: (int, int, int), second: int)
    requires
        writes(s, date, second),
        writes(t, date, second),
    ensures
        s == t,
{
    assert(s =~= t);
}

/// A valid date and clock that a text shows are an instant that it writes.
proof fn lemma_reads_as(s: Seq<char>, date: (int, int, int), h: int, mi: int, sec: int, unix: int)
    requires
        shows(s, date, h, mi, sec),
        valid_date(date),
        h <= 23,
        mi <= 59,
        sec <= 59,
        unix == day_number(date) * 86_400 + h * 3600 + mi * 60 + sec,
    ensures
        is_instant(unix),
        instant_of(s) == Some(unix),
{
    lemma_clock(day_number(date), h, mi, sec, unix);
    lemma_civil_of_day_number(date);
    lemma_instant_year(unix);
    lemma_iso8601_writes(unix);
    lemma_written_once(s, iso8601(unix), date, unix % 86_400);
    law_reading_undoes_writing(unix);
}

/// The calendar starts with the first of January 1970 and goes on day by day: within a month to
/// the next day, from the last day of a month to the first of the next, and from the last of
/// December into the next year. A month has 30 or 31 days, February 28, and 29 in the years that
/// four divides, of the centuries only those that four hundred divides.
pub proof fn law_the_calendar_goes_day_by_day(days: int)
    ensures
        civil(0) == (1970int, 1int, 1int),
        ({
            let (y, m, d) = civil(days);
            let last: int = if m == 4 || m == 6 || m == 9 || m == 11 {
                30
            } else if m != 2 {
                31
            } else if y % 400 == 0 || (y % 4 == 0 && y % 100 != 0) {
                29
            } else {
                28
            };
            &&& 1 <= m <= 12
            &&& 1 <= d <= last
            &&& civil(days + 1) == if d < last {
                (y, m, d + 1)
            } else if m < 12 {
                (y, m + 1, 1int)
            } else {
                (y + 1, 1int, 1int)
            }
        }),
{
    lemma_every_day_has_a_date(days);
    let (y, m, d) = civil(days);
    let next = if d < days_in_month(y, m) {
        (y, m, d + 1)
    } else if m < 12 {
        (y, m + 1, 1int)
    } else {
        (y + 1, 1int, 1int)
    };
    lemma_year_length(y);
    reveal_with_fuel(days_before_month, 14);
    assert(days_before_month(y, m + 1) == days_before_month(y, m) + days_in_month(y, m));
    assert(valid_date(next));
    assert(day_number(next) == days + 1);
    lemma_civil_of_day_number(next);
    lemma_civil_of_day_number((1970, 1, 1));
}

/// A written instant shows the year, the month and the day of its date and the hour, the minute
/// and the second of its day, each in its place.
pub proof fn law_instants_show_their_date_and_clock(unix: int)
    requires
        is_instant(unix),
    ensures
        shows(
            iso8601(unix),
            civil(unix / 86_400),
            unix % 86_400 / 3600,
            unix % 86_400 / 60 % 60,
            unix % 86_400 % 60,
        ),
{
    lemma_iso8601_writes(unix);
    lemma_instant_year(unix);
}

/// A text that shows a date and a clock is read as the second that they name, where the calendar
/// has the date and a day has the time, and is not read otherwise.
pub proof fn law_texts_are_read_by_their_fields(
    s: Seq<char>,
    date: (int, int, int),
    hour: int,
    minute: int,
    second: int,
    days: int,
)
    requires
        shows(s, date, hour, minute, second),
    ensures
        date == civil(days) && hour < 24 && minute < 60 && second < 60 ==> instant_of(s) == Some(
            days * 86_400 + hour * 3600 + minute * 60 + second,
        ),
        instant_of(s) is Some ==> hour < 24 && minute < 60 && second < 60 && exists|d: int| date
            == #[trigger] civil(d),
{
    if date == civil(days) && hour < 24 && minute < 60 && second < 60 {
        lemma_every_day_has_a_date(days);
        lemma_reads_as(
            s,
            date,
            hour,
            minute,
            second,
            days * 86_400 + hour * 3600 + minute * 60 + second,
        );
    }
    if instant_of(s) is Some {
        lemma_written_fields(s, date, hour, minute, second);
        lemma_civil_of_day_number(date);
        assert(date == civil(day_number(date)));
    }
}

/// A text is read only where it has the shape of an instant: twenty characters, with digits
/// between the separators.
pub proof fn law_only_texts_of_one_shape_are_read(s: Seq<char>)
    ensures
        instant_of(s) is Some ==> exists|date: (int, int, int), hour: int, minute: int, second: int|
            #[trigger] shows(s, date, hour, minute, second),
{
    if instant_of(s) is Some {
        let u = instant_of(s).unwrap();
        law_instants_show_their_date_and_clock(u);
    }
}

/// The instant that a text writes as `YYYY-MM-DDTHH:MM:SSZ`, if it writes one.
pub fn parse_iso8601_utc(ts: &str) -> (r: Option<i64>)
    ensures
        match r {
            Some(unix) => instant_of(ts@) == Some(unix as int) && is_instant(unix as int),
            None => instant_of(ts@) is None,
        },
{
    let v = to_chars(ts);
    proof {
        if instant_of(ts@) is Some {
            lemma_written_shape(ts@);
        }
    }
    if v.len() != 20 || v[4] != '-' || v[7] != '-' || v[10] != 'T' || v[13] != ':' || v[16] != ':'
        || v[19] != 'Z' {
        return None;
    }
    let (century, year, month, day) = match (
        read_two(&v, 0),
        read_two(&v, 2),
        read_two(&v, 5),
        read_two(&v, 8),
    ) {
        (Some(a), Some(b), Some(c), Some(d)) => (a, b, c, d),
        _ => return None,
    };
    let (hour, minute, second) = match (read_two(&v, 11), read_two(&v, 14), read_two(&v, 17)) {
        (Some(a), Some(b), Some(c)) => (a, b, c),
        _ => return None,
    };
    let y: i64 = century * 100 + year;
    proof {
        assert(y / 100 == century && y % 100 == year);
        assert(shows(
            ts@,
            (y as int, month as int, day as int),
            hour as int,
            minute as int,
            second as int,
        ));
        if instant_of(ts@) is Some {
            lemma_written_fields(
                ts@,
                (y as int, month as int, day as int),
                hour as int,
                minute as int,
                second as int,
            );
        }
    }
    if month < 1 || month > 12 || day < 1 || day > month_days(y, month) || hour > 23 || minute > 59
        || second > 59 {
        return None;
    }
    let mut days: i64 = 365 * y + (y + 3) / 4 - (y + 99) / 100 + (y + 399) / 400;
    let mut m: i64 = 1;
    while m < month
        invariant
            1 <= m <= month <= 12,
            0 <= y <= 9999,
            days == days_before_year(y as int) + days_before_month(y as int, m as int),
            0 <= days <= 3_700_000 + 31 * m,
        decreases month - m,
    {
        days = days + month_days(y, m);
        m += 1;
    }
    let unix: i64 = (days + day - 1 - 719_528) * 86_400 + hour * 3600 + minute * 60 + second;
    proof {
        lemma_reads_as(
            ts@,
            (y as int, month as int, day as int),
            hour as int,
            minute as int,
            second as int,
            unix as int,
        );
    }
    Some(unix)
}

} // verus!
