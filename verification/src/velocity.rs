//! Readings of a star count, the rates between them and the lines drawn through them.

use vstd::prelude::*;

#[allow(unused_imports)]
use crate::badge::{Point, Share};
#[allow(unused_imports)]
use crate::round::{
    half_away, half_even, law_half_even_is_nearest, law_rounding_is_to_the_nearest,
    law_rounding_keeps_the_order, law_ties_go_one_way, nearest, nearest_away, nearest_even,
};
#[allow(unused_imports)]
use crate::text::{opt_slice, opt_text, padded, sorts_before, text_le, text_lt};
#[allow(unused_imports)]
use crate::time::{
    civil, date_of, date_utc, instant_of, is_instant, iso8601, iso8601_utc, law_text_order_is_time_order,
    parse_iso8601_utc, FIRST_INSTANT, LAST_INSTANT,
};

verus! {

/// Two readings closer together than this are the same day seen twice, not a delta.
pub const MIN_VELOCITY_SPAN: i64 = 43_200;

/// How far back the percentile pool reads; wide enough to survive a missed day.
pub const VELOCITY_WINDOW: i64 = 3_024_000;

/// How far back a sparkline reads.
pub const SPARK_WINDOW: i64 = 2_592_000;

/// Above this age a repo gets no proxy number, only `measuring`.
pub const PROXY_MAX_AGE: i64 = 15_552_000;

/// A star count and the moment it was read.
#[derive(Debug, Clone, PartialEq, Eq)]
pub struct Reading {
    pub ts: String,
    pub stars: i64,
}

// ---------------------------------------------------------------- rates

/// The 64-bit integer nearest to an integer.
pub open spec fn clamped(n: int) -> int {
    if n < i64::MIN {
        i64::MIN as int
    } else if n > i64::MAX {
        i64::MAX as int
    } else {
        n
    }
}

fn clamp(n: i128) -> (r: i64)
    ensures
        r == clamped(n as int),
{
    if n < i64::MIN as i128 {
        i64::MIN
    } else if n > i64::MAX as i128 {
        i64::MAX
    } else {
        n as i64
    }
}

/// Stars per day between two readings, to the nearest whole number. Negative is a real
/// observation, kept as one.
pub open spec fn pair_rate(latest: Reading, prior: Reading) -> Option<int> {
    match (instant_of(latest.ts@), instant_of(prior.ts@)) {
        (Some(l), Some(p)) => if l > p {
            Some(clamped(half_away((latest.stars - prior.stars) * 86_400, l - p)))
        } else {
            None
        },
        _ => None,
    }
}

/// An optional rate as an integer.
pub open spec fn opt_rate(r: Option<i64>) -> Option<int> {
    match r {
        Some(n) => Some(n as int),
        None => None,
    }
}

pub fn pair_velocity(latest: &Reading, prior: &Reading) -> (r: Option<i64>)
    ensures
        opt_rate(r) == pair_rate(*latest, *prior),
{
    match (parse_iso8601_utc(latest.ts.as_str()), parse_iso8601_utc(prior.ts.as_str())) {
        (Some(l), Some(p)) => {
            if l <= p {
                return None;
            }
            let gained: i128 = latest.stars as i128 - prior.stars as i128;
            Some(clamp(nearest_away(gained * 86_400, (l - p) as i128)))
        },
        _ => None,
    }
}

/// The latest moment that is far enough behind a reading to measure a rate against.
pub open spec fn cutoff_of(ts: Seq<char>) -> Option<Seq<char>> {
    match instant_of(ts) {
        Some(at) => Some(iso8601(at - MIN_VELOCITY_SPAN)),
        None => None,
    }
}

pub fn velocity_cutoff(latest: &Reading) -> (r: Option<String>)
    ensures
        opt_text(r) == cutoff_of(latest.ts@),
{
    match parse_iso8601_utc(latest.ts.as_str()) {
        Some(at) => Some(iso8601_utc(at - MIN_VELOCITY_SPAN)),
        None => None,
    }
}

/// The newest reading of a series that is no later than a moment, by its place.
pub open spec fn last_by(readings: Seq<Reading>, cutoff: Seq<char>) -> Option<int>
    decreases readings.len(),
{
    if readings.len() == 0 {
        None
    } else if text_le(readings.last().ts@, cutoff) {
        Some(readings.len() - 1)
    } else {
        last_by(readings.drop_last(), cutoff)
    }
}

proof fn lemma_last_by(readings: Seq<Reading>, cutoff: Seq<char>)
    ensures
        last_by(readings, cutoff) matches Some(i) ==> 0 <= i < readings.len() && text_le(
            readings[i].ts@,
            cutoff,
        ),
    decreases readings.len(),
{
    if readings.len() > 0 && !text_le(readings.last().ts@, cutoff) {
        lemma_last_by(readings.drop_last(), cutoff);
    }
}

/// The measured rate of a series: its latest reading against the newest one that lies far
/// enough back.
pub open spec fn series_rate(readings: Seq<Reading>) -> Option<int> {
    if readings.len() == 0 {
        None
    } else {
        match cutoff_of(readings.last().ts@) {
            Some(cutoff) => match last_by(readings, cutoff) {
                Some(i) => pair_rate(readings.last(), readings[i]),
                None => None,
            },
            None => None,
        }
    }
}

/// A measured rate is a 64-bit integer.
pub proof fn lemma_series_rate_fits(readings: Seq<Reading>)
    ensures
        series_rate(readings) matches Some(rate) ==> i64::MIN <= rate <= i64::MAX,
{
}

/// The measured rate of the first so many readings of a series.
#[verifier::spinoff_prover]
#[verifier::rlimit(60)]
fn rate_at(readings: &Vec<Reading>, n: usize) -> (r: Option<i64>)
    requires
        n <= readings.len(),
    ensures
        opt_rate(r) == series_rate(readings@.take(n as int)),
{
    let ghost seen = readings@.take(n as int);
    if n == 0 {
        return None;
    }
    let latest = &readings[n - 1];
    let cutoff = match velocity_cutoff(latest) {
        Some(cutoff) => cutoff,
        None => return None,
    };
    let mut i: usize = n;
    assert(seen.take(n as int) =~= seen);
    while i > 0
        invariant
            i <= n,
            0 < n <= readings.len(),
            seen == readings@.take(n as int),
            *latest == seen.last(),
            cutoff_of(latest.ts@) == Some(cutoff@),
            last_by(seen, cutoff@) == last_by(seen.take(i as int), cutoff@),
        decreases i,
    {
        assert(seen.take(i as int).last() == readings@[i - 1]);
        if !sorts_before(cutoff.as_str(), readings[i - 1].ts.as_str()) {
            return pair_velocity(latest, &readings[i - 1]);
        }
        assert(seen.take(i as int).drop_last() =~= seen.take(i - 1));
        i -= 1;
    }
    None
}

pub fn series_velocity(readings: &Vec<Reading>) -> (r: Option<i64>)
    ensures
        opt_rate(r) == series_rate(readings@),
{
    assert(readings@.take(readings.len() as int) =~= readings@);
    rate_at(readings, readings.len())
}

/// The measured delta, or `None` until a second reading sits far enough back.
pub fn velocity(latest: Option<&Reading>, prior: Option<&Reading>) -> (r: Option<i64>)
    ensures
        opt_rate(r) == (match (latest, prior) {
            (Some(l), Some(p)) => pair_rate(*l, *p),
            _ => None,
        }),
{
    match (latest, prior) {
        (Some(l), Some(p)) => pair_velocity(l, p),
        _ => None,
    }
}

proof fn lemma_before_year_zero(unix: int)
    requires
        unix < FIRST_INSTANT,
    ensures
        iso8601(unix).len() > 0,
        iso8601(unix)[0] == '-',
{
    crate::time::lemma_date_before_year_zero(unix);
    let y = civil(unix / 86_400).0;
    assert(padded(y, 4)[0] == '-');
    assert(iso8601(unix)[0] == padded(y, 4)[0]);
}

/// A reading that lies no later than a cutoff in the text lies no later in time.
proof fn lemma_cutoff_in_time(prior: Seq<char>, at: int, p: int)
    requires
        is_instant(at),
        instant_of(prior) == Some(p),
        text_le(prior, iso8601(at - MIN_VELOCITY_SPAN)),
    ensures
        at - p >= MIN_VELOCITY_SPAN,
{
    let cut = at - MIN_VELOCITY_SPAN;
    crate::time::law_writing_undoes_reading(prior);
    if is_instant(cut) {
        law_text_order_is_time_order(cut, p);
    } else {
        lemma_before_year_zero(cut);
        crate::time::lemma_first_character(p);
        assert(text_lt(iso8601(cut), iso8601(p)));
    }
}

/// A rate against a reading that lies no later than the cutoff is a rate over at least half a
/// day.
pub proof fn law_cutoffs_keep_half_a_day(latest: Reading, prior: Reading)
    requires
        cutoff_of(latest.ts@) matches Some(cutoff) && text_le(prior.ts@, cutoff),
    ensures
        pair_rate(latest, prior) is Some ==> instant_of(latest.ts@)->0 - instant_of(prior.ts@)->0
            >= MIN_VELOCITY_SPAN,
{
    if pair_rate(latest, prior) is Some {
        crate::time::law_writing_undoes_reading(latest.ts@);
        lemma_cutoff_in_time(
            prior.ts@,
            instant_of(latest.ts@)->0,
            instant_of(prior.ts@)->0,
        );
    }
}

/// A rate is what was gained over the time that it took. It is there exactly where both moments
/// can be read and time passed between them, and no 64-bit integer is nearer to the stars gained
/// per day, whatever the span; half a star goes away from zero.
pub proof fn law_rates_are_gain_over_time(latest: Reading, prior: Reading)
    ensures
        pair_rate(latest, prior) is Some <==> (instant_of(latest.ts@) matches Some(l) && instant_of(
            prior.ts@,
        ) matches Some(p) && l > p),
        pair_rate(latest, prior) matches Some(rate) ==> {
            let gained = latest.stars - prior.stars;
            let span = instant_of(latest.ts@)->0 - instant_of(prior.ts@)->0;
            &&& i64::MIN <= rate <= i64::MAX
            &&& i64::MIN < rate < i64::MAX ==> -span <= 2 * (gained * 86_400 - rate * span) <= span
            &&& i64::MIN < rate < i64::MAX && 2 * (gained * 86_400 - rate * span) == span ==> gained
                < 0
            &&& i64::MIN < rate < i64::MAX && 2 * (gained * 86_400 - rate * span) == -span
                ==> gained > 0
            &&& rate == i64::MAX ==> 2 * (gained * 86_400 - rate * span) >= -span
            &&& rate == i64::MIN ==> 2 * (gained * 86_400 - rate * span) <= span
        },
{
    if pair_rate(latest, prior) is Some {
        let n = (latest.stars - prior.stars) * 86_400;
        let d = instant_of(latest.ts@)->0 - instant_of(prior.ts@)->0;
        lemma_clamped_is_nearest(n, d);
    }
}

proof fn lemma_clamped_is_nearest(n: int, d: int)
    requires
        d > 0,
    ensures
        ({
            let rate = clamped(half_away(n, d));
            &&& i64::MIN < rate < i64::MAX ==> -d <= 2 * (n - rate * d) <= d
            &&& i64::MIN < rate < i64::MAX && 2 * (n - rate * d) == d ==> n < 0
            &&& i64::MIN < rate < i64::MAX && 2 * (n - rate * d) == -d ==> n > 0
            &&& rate == i64::MAX ==> 2 * (n - rate * d) >= -d
            &&& rate == i64::MIN ==> 2 * (n - rate * d) <= d
        }),
{
    let exact = half_away(n, d);
    let rate = clamped(exact);
    law_rounding_is_to_the_nearest(n, d);
    law_ties_go_one_way(n, d);
    assert(d * exact == exact * d) by (nonlinear_arith);
    assert(rate <= exact ==> rate * d <= exact * d) by (nonlinear_arith)
        requires
            d > 0,
    ;
    assert(rate >= exact ==> rate * d >= exact * d) by (nonlinear_arith)
        requires
            d > 0,
    ;
}

/// A larger gain over the same time is never a smaller rate.
pub proof fn law_rates_grow_with_the_gain(latest: Reading, other: Reading, prior: Reading)
    requires
        latest.ts@ == other.ts@,
        latest.stars <= other.stars,
        pair_rate(latest, prior) is Some,
    ensures
        pair_rate(other, prior) matches Some(rate) && pair_rate(latest, prior)->0 <= rate,
{
    let d = instant_of(latest.ts@)->0 - instant_of(prior.ts@)->0;
    law_rounding_keeps_the_order(
        (latest.stars - prior.stars) * 86_400,
        (other.stars - prior.stars) * 86_400,
        d,
    );
}

/// A decline is shown, neither suppressed nor clamped to zero: a count that fell by at least
/// half a star a day has a negative rate.
pub proof fn law_declines_stay_declines(latest: Reading, prior: Reading, l: int, p: int)
    requires
        instant_of(latest.ts@) == Some(l),
        instant_of(prior.ts@) == Some(p),
        l > p,
        2 * ((prior.stars - latest.stars) * 86_400) >= l - p,
    ensures
        pair_rate(latest, prior) matches Some(rate) && rate < 0,
{
    let n = (latest.stars - prior.stars) * 86_400;
    let d = l - p;
    let a = (2 * -n + d) / (2 * d);
    assert(a >= 1) by {
        vstd::arithmetic::div_mod::lemma_fundamental_div_mod(2 * -n + d, 2 * d);
        vstd::arithmetic::div_mod::lemma_mod_bound(2 * -n + d, 2 * d);
        assert(a >= 1) by (nonlinear_arith)
            requires
                2 * -n + d == (2 * d) * a + (2 * -n + d) % (2 * d),
                (2 * -n + d) % (2 * d) < 2 * d,
                2 * -n >= d,
                d > 0,
        ;
    }
}

/// A measured rate comes from two readings of the series at least half a day apart.
pub proof fn law_measured_rates_span_half_a_day(readings: Seq<Reading>)
    ensures
        series_rate(readings) is Some ==> exists|i: int, l: int, p: int|
            0 <= i < readings.len() && instant_of(readings.last().ts@) == Some(l) && #[trigger]
            instant_of(readings[i].ts@) == Some(p) && #[trigger] (l - p) >= MIN_VELOCITY_SPAN
                && series_rate(readings) == pair_rate(readings.last(), readings[i]),
{
    if series_rate(readings) is Some {
        let latest = readings.last();
        let cutoff = cutoff_of(latest.ts@).unwrap();
        let i = last_by(readings, cutoff).unwrap();
        lemma_last_by(readings, cutoff);
        let l = instant_of(latest.ts@).unwrap();
        let p = instant_of(readings[i].ts@).unwrap();
        crate::time::law_writing_undoes_reading(latest.ts@);
        lemma_cutoff_in_time(readings[i].ts@, l, p);
        assert(l - p >= MIN_VELOCITY_SPAN);
    }
}

/// Whether a reading lies far enough behind the last one of its series to measure a rate
/// against.
pub open spec fn far_enough(readings: Seq<Reading>, i: int) -> bool {
    instant_of(readings.last().ts@) matches Some(l) && instant_of(readings[i].ts@) matches Some(p)
        && l - p >= 43_200
}

/// A readable reading is no later than a cutoff exactly where it lies half a day back.
pub proof fn law_a_cutoff_is_half_a_day_back(latest: Reading, prior: Reading)
    requires
        instant_of(latest.ts@) is Some,
        instant_of(prior.ts@) is Some,
    ensures
        cutoff_of(latest.ts@) matches Some(cutoff) && (text_le(prior.ts@, cutoff) <==> instant_of(
            latest.ts@,
        )->0 - instant_of(prior.ts@)->0 >= 43_200),
{
    let l = instant_of(latest.ts@)->0;
    let p = instant_of(prior.ts@)->0;
    let cut = l - MIN_VELOCITY_SPAN;
    crate::time::law_writing_undoes_reading(latest.ts@);
    crate::time::law_writing_undoes_reading(prior.ts@);
    if text_le(prior.ts@, iso8601(cut)) {
        lemma_cutoff_in_time(prior.ts@, l, p);
    }
    if l - p >= 43_200 {
        assert(is_instant(cut));
        law_text_order_is_time_order(cut, p);
    }
}

/// A series of readable readings is measured against the newest one that lies half a day behind
/// its last: the rate of a series is the rate between these two, and a series has no rate where
/// no reading lies that far back.
pub proof fn law_a_series_is_measured_against_its_newest_far_reading(readings: Seq<Reading>)
    requires
        readings.len() > 0,
        forall|i: int|
            0 <= i < readings.len() ==> instant_of((#[trigger] readings[i]).ts@) is Some,
    ensures
        forall|i: int|
            0 <= i < readings.len() && #[trigger] far_enough(readings, i) && (forall|j: int|
                i < j < readings.len() ==> !#[trigger] far_enough(readings, j)) ==> series_rate(
                readings,
            ) is Some && series_rate(readings) == pair_rate(readings.last(), readings[i]),
        (forall|i: int| 0 <= i < readings.len() ==> !#[trigger] far_enough(readings, i))
            ==> series_rate(readings) is None,
{
    let latest = readings.last();
    assert(latest == readings[readings.len() - 1]);
    let cutoff = cutoff_of(latest.ts@)->0;
    lemma_last_by(readings, cutoff);
    lemma_last_by_is_last(readings, cutoff);
    assert forall|i: int| 0 <= i < readings.len() implies (far_enough(readings, i) <==> text_le(
        (#[trigger] readings[i]).ts@,
        cutoff,
    )) by {
        law_a_cutoff_is_half_a_day_back(latest, readings[i]);
    }
    assert forall|i: int|
        0 <= i < readings.len() && #[trigger] far_enough(readings, i) && (forall|j: int|
            i < j < readings.len() ==> !#[trigger] far_enough(readings, j)) implies series_rate(
        readings,
    ) is Some && series_rate(readings) == pair_rate(readings.last(), readings[i]) by {
        assert(text_le(readings[i].ts@, cutoff));
        let found = last_by(readings, cutoff)->0;
        assert(far_enough(readings, found));
        assert(found == i);
    }
    if forall|i: int| 0 <= i < readings.len() ==> !#[trigger] far_enough(readings, i) {
        if last_by(readings, cutoff) is Some {
            assert(far_enough(readings, last_by(readings, cutoff)->0));
        }
    }
}

/// Behind the place that was found none is no later than the moment, and where none was found
/// there is none.
proof fn lemma_last_by_is_last(readings: Seq<Reading>, cutoff: Seq<char>)
    ensures
        forall|j: int|
            0 <= j < readings.len() && (last_by(readings, cutoff) matches Some(i) ==> i < j)
                ==> !text_le((#[trigger] readings[j]).ts@, cutoff),
    decreases readings.len(),
{
    if readings.len() > 0 && !text_le(readings.last().ts@, cutoff) {
        let rest = readings.drop_last();
        lemma_last_by_is_last(rest, cutoff);
        assert forall|j: int|
            0 <= j < readings.len() && (last_by(readings, cutoff) matches Some(i) ==> i
                < j) implies !text_le((#[trigger] readings[j]).ts@, cutoff) by {
            if j < rest.len() {
                assert(rest[j] == readings[j]);
            }
        }
    }
}

/// The highest rate that was ever measured over a series, and the date of the reading that it
/// was measured at. A rate that only equals the highest so far moves nothing.
pub open spec fn peak_of(readings: Seq<Reading>) -> Option<(int, Seq<char>)>
    decreases readings.len(),
{
    if readings.len() == 0 {
        None
    } else {
        let head = peak_of(readings.drop_last());
        match series_rate(readings) {
            Some(rate) => if head matches Some(best) && rate <= best.0 {
                head
            } else {
                Some((rate, date_of(instant_of(readings.last().ts@)->0)))
            },
            None => head,
        }
    }
}

/// A peak as a number and a text.
pub open spec fn opt_peak(p: Option<(i64, String)>) -> Option<(int, Seq<char>)> {
    match p {
        Some((rate, date)) => Some((rate as int, date@)),
        None => None,
    }
}

/// The highest day that was ever measured, with its date.
pub fn peak(readings: &Vec<Reading>) -> (r: Option<(i64, String)>)
    ensures
        opt_peak(r) == peak_of(readings@),
{
    let mut best: Option<(i64, String)> = None;
    let mut i: usize = 0;
    assert(readings@.take(0) =~= Seq::<Reading>::empty());
    while i < readings.len()
        invariant
            i <= readings.len(),
            opt_peak(best) == peak_of(readings@.take(i as int)),
        decreases readings.len() - i,
    {
        let ghost next = readings@.take(i + 1);
        assert(next.drop_last() =~= readings@.take(i as int));
        assert(next.last() == readings@[i as int]);
        if let Some(rate) = rate_at(readings, i + 1) {
            let higher = match &best {
                Some((so_far, _)) => rate > *so_far,
                None => true,
            };
            if higher {
                if let Some(at) = parse_iso8601_utc(readings[i].ts.as_str()) {
                    best = Some((rate, date_utc(at)));
                }
            }
        }
        i += 1;
    }
    assert(readings@.take(i as int) =~= readings@);
    best
}

/// One more reading never lowers the peak, and it moves the date only where it raises the rate.
pub proof fn law_the_peak_only_goes_up(readings: Seq<Reading>, next: Reading)
    ensures
        peak_of(readings) matches Some(was) ==> (peak_of(readings.push(next)) matches Some(now) && (
        now == was || now.0 > was.0)),
{
    assert(readings.push(next).drop_last() =~= readings);
}

/// The peak is the highest of all rates that the series had, reading by reading: none of them
/// is above it, and it is the rate of the reading whose date it carries.
#[verifier::spinoff_prover]
#[verifier::rlimit(60)]
pub proof fn law_the_peak_is_the_highest_rate(readings: Seq<Reading>)
    ensures
        forall|n: int|
            0 < n <= readings.len() ==> (series_rate(#[trigger] readings.take(n)) matches Some(rate)
                ==> (peak_of(readings) matches Some(best) && rate <= best.0)),
        peak_of(readings) matches Some(best) ==> exists|n: int|
            0 < n <= readings.len() && series_rate(#[trigger] readings.take(n)) == Some(best.0)
                && best.1 == date_of(instant_of(readings[n - 1].ts@)->0),
    decreases readings.len(),
{
    if readings.len() > 0 {
        let rest = readings.drop_last();
        let m = readings.len() as int;
        law_the_peak_is_the_highest_rate(rest);
        assert(readings.take(m) =~= readings);
        assert forall|n: int| 0 < n <= readings.len() implies (series_rate(
            #[trigger] readings.take(n),
        ) matches Some(rate) ==> (peak_of(readings) matches Some(best) && rate <= best.0)) by {
            if n < m {
                assert(rest.take(n) =~= readings.take(n));
            }
        }
        if let Some(best) = peak_of(readings) {
            if peak_of(readings) == peak_of(rest) {
                let n = choose|n: int|
                    0 < n <= rest.len() && series_rate(#[trigger] rest.take(n)) == Some(best.0)
                        && best.1 == date_of(instant_of(rest[n - 1].ts@)->0);
                assert(rest.take(n) =~= readings.take(n));
                assert(series_rate(readings.take(n)) == Some(best.0));
            } else {
                assert(series_rate(readings.take(m)) == Some(best.0));
            }
        }
    }
}

/// A young repo's lifetime average to the nearest whole number, over at least one day.
pub open spec fn proxy_rate(created_at: Option<Seq<char>>, stars: int, now: int) -> Option<int> {
    match created_at {
        Some(ts) => match instant_of(ts) {
            Some(created) => if now - created > PROXY_MAX_AGE {
                None
            } else if now - created > 86_400 {
                Some(half_away(stars * 86_400, now - created))
            } else {
                Some(stars)
            },
            None => None,
        },
        None => None,
    }
}

proof fn lemma_average_fits(stars: int, age: int)
    requires
        i64::MIN <= stars <= i64::MAX,
        age >= 86_400,
    ensures
        i64::MIN <= half_away(stars * 86_400, age) <= i64::MAX,
{
    let m = if stars >= 0 {
        stars
    } else {
        -stars
    };
    let q = (2 * (m * 86_400) + age) / (2 * age);
    assert(q <= m) by {
        vstd::arithmetic::div_mod::lemma_fundamental_div_mod(2 * (m * 86_400) + age, 2 * age);
        vstd::arithmetic::div_mod::lemma_mod_bound(2 * (m * 86_400) + age, 2 * age);
        assert(q <= m) by (nonlinear_arith)
            requires
                2 * (m * 86_400) + age == (2 * age) * q + (2 * (m * 86_400) + age) % (2 * age),
                0 <= (2 * (m * 86_400) + age) % (2 * age),
                age >= 86_400,
                m >= 0,
        ;
    }
    assert(q >= 0) by {
        vstd::arithmetic::div_mod::lemma_div_pos_is_pos(2 * (m * 86_400) + age, 2 * age);
    }
    assert(stars < 0 ==> 2 * -(stars * 86_400) + age == 2 * (m * 86_400) + age);
}

/// A young repo's lifetime average, worn with the proxy label it deserves.
pub fn proxy_average(created_at: Option<&str>, stars: i64, now: i64) -> (r: Option<i64>)
    ensures
        opt_rate(r) == proxy_rate(opt_slice(created_at), stars as int, now as int),
{
    let created = match created_at {
        Some(ts) => match parse_iso8601_utc(ts) {
            Some(created) => created,
            None => return None,
        },
        None => return None,
    };
    let age: i128 = now as i128 - created as i128;
    if age > PROXY_MAX_AGE as i128 {
        None
    } else if age > 86_400 {
        proof {
            lemma_average_fits(stars as int, age as int);
        }
        Some(nearest_away(stars as i128 * 86_400, age) as i64)
    } else {
        Some(stars)
    }
}

/// An average is the stars of a repo over the days that it has been there. It is there exactly
/// where the day of its making can be read and lies no more than 180 days back; up to an age of a
/// day it is the count itself, and from then on no integer is nearer to the stars per day.
pub proof fn law_averages_are_stars_over_age(created_at: Option<Seq<char>>, stars: int, now: int)
    ensures
        proxy_rate(created_at, stars, now) is Some <==> (created_at matches Some(ts) && instant_of(
            ts,
        ) matches Some(created) && now - created <= 180 * 86_400),
        proxy_rate(created_at, stars, now) matches Some(average) ==> {
            let age = now - instant_of(created_at->0)->0;
            &&& age <= 86_400 ==> average == stars
            &&& age >= 86_400 ==> -age <= 2 * (stars * 86_400 - average * age) <= age
            &&& age >= 86_400 && 2 * (stars * 86_400 - average * age) == age ==> stars < 0
            &&& age >= 86_400 && 2 * (stars * 86_400 - average * age) == -age ==> stars > 0
        },
{
    if proxy_rate(created_at, stars, now) is Some {
        let age = now - instant_of(created_at->0)->0;
        if age > 86_400 {
            let average = half_away(stars * 86_400, age);
            law_rounding_is_to_the_nearest(stars * 86_400, age);
            law_ties_go_one_way(stars * 86_400, age);
            assert(age * average == average * age) by (nonlinear_arith);
        }
    }
}

/// Only young repos get an average: above 180 days of age there is no number at all.
pub proof fn law_old_repos_get_no_average(created_at: Seq<char>, stars: int, now: int)
    requires
        instant_of(created_at) matches Some(created) && now - created > PROXY_MAX_AGE,
    ensures
        proxy_rate(Some(created_at), stars, now) is None,
{
}

// ---------------------------------------------------------------- percentiles

/// How many rates are at least as large as one.
pub open spec fn at_least(fleet: Seq<i64>, velocity: int) -> nat
    decreases fleet.len(),
{
    if fleet.len() == 0 {
        0
    } else {
        at_least(fleet.drop_last(), velocity) + (if fleet.last() >= velocity {
            1nat
        } else {
            0
        })
    }
}

/// Where a rate sits among all that are measured. Nobody outranks themselves out of their
/// own pool, and in an empty pool everybody is in the whole of it.
pub open spec fn share_of(fleet: Seq<i64>, velocity: int) -> Share {
    if fleet.len() == 0 {
        Share { ahead: 1, pool: 1 }
    } else {
        Share {
            ahead: (if at_least(fleet, velocity) == 0 {
                1
            } else {
                at_least(fleet, velocity)
            }) as u64,
            pool: fleet.len() as u64,
        }
    }
}

proof fn lemma_at_least_bound(fleet: Seq<i64>, velocity: int)
    ensures
        at_least(fleet, velocity) <= fleet.len(),
    decreases fleet.len(),
{
    if fleet.len() > 0 {
        lemma_at_least_bound(fleet.drop_last(), velocity);
    }
}

pub fn percentile_of(fleet: &Vec<i64>, velocity: i64) -> (r: Share)
    ensures
        r == share_of(fleet@, velocity as int),
        0 < r.ahead <= r.pool,
{
    if fleet.len() == 0 {
        return Share { ahead: 1, pool: 1 };
    }
    let mut ahead: usize = 0;
    let mut i: usize = 0;
    assert(fleet@.take(0) =~= Seq::<i64>::empty());
    while i < fleet.len()
        invariant
            i <= fleet.len(),
            ahead <= i,
            ahead == at_least(fleet@.take(i as int), velocity as int),
        decreases fleet.len() - i,
    {
        assert(fleet@.take(i + 1).drop_last() =~= fleet@.take(i as int));
        assert(fleet@.take(i + 1).last() == fleet@[i as int]);
        if fleet[i] >= velocity {
            ahead += 1;
        }
        i += 1;
    }
    assert(fleet@.take(i as int) =~= fleet@);
    if ahead == 0 {
        ahead = 1;
    }
    Share { ahead: ahead as u64, pool: fleet.len() as u64 }
}

/// A share says how many of the pool are at least as fast, at least one, out of all of it.
pub proof fn law_shares_count_who_is_as_fast(fleet: Seq<i64>, velocity: int)
    requires
        0 < fleet.len() <= u64::MAX,
    ensures
        share_of(fleet, velocity).pool == fleet.len(),
        ({
            let as_fast = fleet.filter(|rate: i64| rate >= velocity).len();
            share_of(fleet, velocity).ahead == if as_fast == 0 {
                1
            } else {
                as_fast
            }
        }),
{
    lemma_at_least_filters(fleet, velocity);
    lemma_at_least_bound(fleet, velocity);
}

proof fn lemma_at_least_filters(fleet: Seq<i64>, velocity: int)
    ensures
        at_least(fleet, velocity) == fleet.filter(|rate: i64| rate >= velocity).len(),
    decreases fleet.len(),
{
    reveal(Seq::filter);
    if fleet.len() > 0 {
        lemma_at_least_filters(fleet.drop_last(), velocity);
    }
}

/// A faster repo never gets a worse percentile than a slower one of the same pool.
pub proof fn law_faster_never_ranks_worse(fleet: Seq<i64>, slow: int, fast: int)
    requires
        slow <= fast,
        fleet.len() <= u64::MAX,
    ensures
        share_of(fleet, fast).ahead <= share_of(fleet, slow).ahead,
        share_of(fleet, fast).pool == share_of(fleet, slow).pool,
{
    lemma_at_least_monotone(fleet, slow, fast);
    lemma_at_least_bound(fleet, slow);
}

proof fn lemma_at_least_monotone(fleet: Seq<i64>, slow: int, fast: int)
    requires
        slow <= fast,
    ensures
        at_least(fleet, fast) <= at_least(fleet, slow),
    decreases fleet.len(),
{
    if fleet.len() > 0 {
        lemma_at_least_monotone(fleet.drop_last(), slow, fast);
    }
}

// ---------------------------------------------------------------- sparklines

/// Where a series is drawn, in pixels: x across the width, stars between the two rows, a flat
/// series along the middle one.
#[derive(Debug, Clone, Copy, PartialEq, Eq, Structural)]
pub struct Region {
    pub width: i64,
    pub top: i64,
    pub bottom: i64,
    pub flat: i64,
}

/// The largest coordinate whose tenths, over the largest spread that star counts can have, stay
/// in the range of the arithmetic.
pub const MAX_PIXELS: i64 = 115_292_150_460_684_697;

impl Region {
    /// The rows lie in order, and the arithmetic on them does not overflow.
    pub open spec fn wf(self) -> bool {
        0 <= self.top < self.bottom <= MAX_PIXELS && self.top <= self.flat <= self.bottom && 0
            <= self.width <= MAX_PIXELS
    }
}

/// The card's spark region, 388 wide.
pub open spec fn card_region() -> Region {
    Region { width: 388, top: 4, bottom: 36, flat: 20 }
}

/// The leaderboard's minispark, the same shape at row height.
pub open spec fn mini_region() -> Region {
    Region { width: 100, top: 4, bottom: 20, flat: 12 }
}

pub fn card_spark() -> (r: Region)
    ensures
        r == card_region(),
        r.wf(),
{
    Region { width: 388, top: 4, bottom: 36, flat: 20 }
}

pub fn mini_spark() -> (r: Region)
    ensures
        r == mini_region(),
        r.wf(),
{
    Region { width: 100, top: 4, bottom: 20, flat: 12 }
}

/// One point a day inside the window: the last reading of each UTC day.
pub open spec fn daily(readings: Seq<Reading>, start: int) -> Seq<(int, int)>
    decreases readings.len(),
{
    if readings.len() == 0 {
        Seq::empty()
    } else {
        let days = daily(readings.drop_last(), start);
        match instant_of(readings.last().ts@) {
            Some(at) => if at < start {
                days
            } else if days.len() > 0 && days.last().0 / 86_400 == at / 86_400 {
                days.drop_last().push((at, readings.last().stars as int))
            } else {
                days.push((at, readings.last().stars as int))
            },
            None => days,
        }
    }
}

/// No two neighbouring points are of the same UTC day.
pub proof fn law_one_point_a_day(readings: Seq<Reading>, start: int)
    ensures
        forall|k: int|
            0 <= k < daily(readings, start).len() - 1 ==> (#[trigger] daily(readings, start)[k]).0
                / 86_400 != daily(readings, start)[k + 1].0 / 86_400,
    decreases readings.len(),
{
    if readings.len() > 0 {
        let head = daily(readings.drop_last(), start);
        let days = daily(readings, start);
        law_one_point_a_day(readings.drop_last(), start);
        assert forall|k: int| 0 <= k < days.len() - 1 implies (#[trigger] days[k]).0 / 86_400
            != days[k + 1].0 / 86_400 by {
            if k + 1 < head.len() {
                assert(head[k].0 / 86_400 != head[k + 1].0 / 86_400);
            }
        }
    }
}

/// Whether the readings that can be read follow each other in time.
pub open spec fn in_time(readings: Seq<Reading>) -> bool {
    forall|i: int, j: int|
        0 <= i < j < readings.len() && instant_of((#[trigger] readings[i]).ts@) is Some
            && instant_of((#[trigger] readings[j]).ts@) is Some ==> instant_of(readings[i].ts@)->0
            <= instant_of(readings[j].ts@)->0
}

/// Whether a point is a reading inside the window behind which no other reading of its UTC day
/// can be read.
pub open spec fn last_of_day(readings: Seq<Reading>, i: int, start: int, day: (int, int)) -> bool {
    &&& 0 <= i < readings.len()
    &&& instant_of(readings[i].ts@) == Some(day.0)
    &&& day.0 >= start
    &&& day.1 == readings[i].stars
    &&& forall|j: int|
        i < j < readings.len() && instant_of((#[trigger] readings[j]).ts@) is Some
            ==> instant_of(readings[j].ts@)->0 / 86_400 != day.0 / 86_400
}

/// Whether a point is the last reading of its UTC day.
pub open spec fn ends_a_day(readings: Seq<Reading>, start: int, day: (int, int)) -> bool {
    exists|i: int| last_of_day(readings, i, start, day)
}

/// What a reading marks in time, where its moment can be read.
spec fn mark(reading: Reading) -> Option<(int, int)> {
    match instant_of(reading.ts@) {
        Some(at) => Some((at, reading.stars as int)),
        None => None,
    }
}

spec fn moment(mark: Option<(int, int)>) -> int {
    match mark {
        Some(m) => m.0,
        None => 0,
    }
}

/// The last mark of each UTC day, out of marks that follow each other.
spec fn per_day(marks: Seq<Option<(int, int)>>, start: int) -> Seq<(int, int)>
    decreases marks.len(),
{
    if marks.len() == 0 {
        Seq::empty()
    } else {
        let days = per_day(marks.drop_last(), start);
        match marks.last() {
            Some(last) => if last.0 < start {
                days
            } else if days.len() > 0 && days.last().0 / 86_400 == last.0 / 86_400 {
                days.drop_last().push(last)
            } else {
                days.push(last)
            },
            None => days,
        }
    }
}

proof fn lemma_daily_marks(readings: Seq<Reading>, start: int)
    ensures
        daily(readings, start) == per_day(readings.map_values(|r: Reading| mark(r)), start),
    decreases readings.len(),
{
    let marks = readings.map_values(|r: Reading| mark(r));
    if readings.len() > 0 {
        lemma_daily_marks(readings.drop_last(), start);
        assert(marks.drop_last() =~= readings.drop_last().map_values(|r: Reading| mark(r)));
        assert(marks.last() == mark(readings.last()));
    }
}

spec fn marks_in_time(marks: Seq<Option<(int, int)>>) -> bool {
    forall|i: int, j: int|
        0 <= i < j < marks.len() && (#[trigger] marks[i]) is Some && (#[trigger] marks[j]) is Some
            ==> moment(marks[i]) <= moment(marks[j])
}

spec fn last_mark(marks: Seq<Option<(int, int)>>, i: int, day: (int, int)) -> bool {
    &&& 0 <= i < marks.len()
    &&& marks[i] == Some(day)
    &&& forall|j: int|
        i < j < marks.len() && (#[trigger] marks[j]) is Some ==> moment(marks[j]) / 86_400 != day.0
            / 86_400
}

/// Every day is the last mark of its day, the days ascend, and none lies after the last mark.
proof fn lemma_days_are_last_marks(marks: Seq<Option<(int, int)>>, start: int)
    requires
        marks_in_time(marks),
    ensures
        forall|k: int|
            0 <= k < per_day(marks, start).len() ==> (#[trigger] per_day(marks, start)[k]).0 >= start
                && exists|i: int| last_mark(marks, i, per_day(marks, start)[k]),
        forall|k: int, m: int|
            0 <= k < m < per_day(marks, start).len() ==> (#[trigger] per_day(marks, start)[k]).0
                / 86_400 < (#[trigger] per_day(marks, start)[m]).0 / 86_400,
        forall|k: int, j: int|
            0 <= k < per_day(marks, start).len() && j == marks.len() - 1 && (
            #[trigger] marks[j]) is Some ==> (#[trigger] per_day(marks, start)[k]).0
                <= moment(marks[j]),
    decreases marks.len(),
{
    if marks.len() > 0 {
        let rest = marks.drop_last();
        let n = marks.len() - 1;
        let head = per_day(rest, start);
        let days = per_day(marks, start);
        assert(marks_in_time(rest)) by {
            assert forall|i: int, j: int|
                0 <= i < j < rest.len() && (#[trigger] rest[i]) is Some && (
                #[trigger] rest[j]) is Some implies moment(rest[i]) <= moment(rest[j]) by {
                assert(rest[i] == marks[i] && rest[j] == marks[j]);
            }
        }
        lemma_days_are_last_marks(rest, start);
        assert forall|k: int| 0 <= k < head.len() && marks[n] is Some implies (
        #[trigger] head[k]).0 <= moment(marks[n]) by {
            let i = choose|i: int| last_mark(rest, i, head[k]);
            assert(rest[i] == marks[i]);
        }
        let appended = marks[n] is Some && moment(marks[n]) >= start;
        let kept = if appended {
            days.len() - 1
        } else {
            days.len() as int
        };
        assert(kept <= head.len());
        assert forall|k: int| 0 <= k < kept implies days[k] == #[trigger] head[k] by {}
        assert forall|k: int| 0 <= k < kept && appended implies (#[trigger] head[k]).0 / 86_400
            < moment(marks[n]) / 86_400 by {
            let e = head.len() - 1;
            assert(head[e].0 <= moment(marks[n]));
            if k < e {
                assert(head[k].0 / 86_400 < head[e].0 / 86_400);
            }
        }
        assert forall|k: int| 0 <= k < days.len() implies (#[trigger] days[k]).0 >= start
            && exists|i: int| last_mark(marks, i, days[k]) by {
            if k < kept {
                assert(days[k] == head[k]);
                let i = choose|i: int| last_mark(rest, i, head[k]);
                assert forall|j: int| i < j < marks.len() && (#[trigger] marks[j]) is Some implies moment(marks[j])
                    / 86_400 != days[k].0 / 86_400 by {
                    if j < n {
                        assert(rest[j] == marks[j]);
                    } else if !appended {
                        assert(head[k].0 <= moment(marks[n]));
                    }
                }
                assert(rest[i] == marks[i]);
                assert(last_mark(marks, i, days[k]));
            } else {
                assert(last_mark(marks, n, days[k]));
            }
        }
        assert forall|k: int, m: int| 0 <= k < m < days.len() implies (#[trigger] days[k]).0 / 86_400
            < (#[trigger] days[m]).0 / 86_400 by {
            assert(days[k] == head[k]);
            if m < kept {
                assert(days[m] == head[m]);
            }
        }
        assert forall|k: int, j: int|
            0 <= k < days.len() && j == marks.len() - 1 && (#[trigger] marks[j]) is Some implies (
        #[trigger] days[k]).0 <= moment(marks[j]) by {
            if k < kept {
                assert(days[k] == head[k]);
            }
        }
    }
}

/// Every mark inside the window has a day.
proof fn lemma_marks_have_days(marks: Seq<Option<(int, int)>>, start: int, i: int)
    requires
        0 <= i < marks.len(),
        marks[i] matches Some(m) && m.0 >= start,
    ensures
        exists|k: int|
            0 <= k < per_day(marks, start).len() && (#[trigger] per_day(marks, start)[k]).0 / 86_400
                == moment(marks[i]) / 86_400,
    decreases marks.len(),
{
    let days = per_day(marks, start);
    if i == marks.len() - 1 {
        assert(days[days.len() - 1].0 == moment(marks[i]));
    } else {
        let rest = marks.drop_last();
        let head = per_day(rest, start);
        assert(rest[i] == marks[i]);
        lemma_marks_have_days(rest, start, i);
        let k = choose|k: int|
            0 <= k < head.len() && (#[trigger] head[k]).0 / 86_400 == moment(rest[i]) / 86_400;
        if k < days.len() - 1 || days == head {
            assert(days[k] == head[k]);
        } else if k == days.len() - 1 {
            assert(days[k].0 / 86_400 == head[k].0 / 86_400);
        }
    }
}

/// Out of readings that follow each other in time, the points are the last reading of each UTC
/// day from the start on: every such day has one, no other day does, and the days ascend.
pub proof fn law_each_day_is_its_last_reading(readings: Seq<Reading>, start: int)
    requires
        in_time(readings),
    ensures
        forall|k: int|
            0 <= k < daily(readings, start).len() ==> ends_a_day(
                readings,
                start,
                #[trigger] daily(readings, start)[k],
            ),
        forall|i: int|
            0 <= i < readings.len() && (instant_of((#[trigger] readings[i]).ts@) matches Some(at) && at
                >= start) ==> exists|k: int|
                0 <= k < daily(readings, start).len() && (#[trigger] daily(readings, start)[k]).0
                    / 86_400 == instant_of(readings[i].ts@)->0 / 86_400,
        forall|k: int, m: int|
            0 <= k < m < daily(readings, start).len() ==> (#[trigger] daily(readings, start)[k]).0
                / 86_400 < (#[trigger] daily(readings, start)[m]).0 / 86_400,
{
    let marks = readings.map_values(|r: Reading| mark(r));
    let days = daily(readings, start);
    lemma_daily_marks(readings, start);
    assert forall|i: int, j: int|
        0 <= i < j < marks.len() && (#[trigger] marks[i]) is Some && (#[trigger] marks[j]) is Some implies moment(marks[i])
        <= moment(marks[j]) by {
        assert(instant_of(readings[i].ts@)->0 <= instant_of(readings[j].ts@)->0);
    }
    lemma_days_are_last_marks(marks, start);
    assert forall|k: int| 0 <= k < days.len() implies ends_a_day(
        readings,
        start,
        #[trigger] days[k],
    ) by {
        assert(per_day(marks, start)[k] == days[k]);
        let i = choose|i: int| last_mark(marks, i, days[k]);
        assert(marks[i] == mark(readings[i]));
        assert forall|j: int|
            i < j < readings.len() && instant_of((#[trigger] readings[j]).ts@) is Some implies instant_of(
        readings[j].ts@)->0 / 86_400 != days[k].0 / 86_400 by {
            assert(marks[j] == mark(readings[j]));
        }
        assert(last_of_day(readings, i, start, days[k]));
    }
    assert forall|i: int|
        0 <= i < readings.len() && (instant_of((#[trigger] readings[i]).ts@) matches Some(at) && at
            >= start) implies exists|k: int|
        0 <= k < days.len() && (#[trigger] days[k]).0 / 86_400 == instant_of(readings[i].ts@)->0
            / 86_400 by {
        assert(marks[i] == mark(readings[i]));
        lemma_marks_have_days(marks, start, i);
        let k = choose|k: int|
            0 <= k < days.len() && (#[trigger] per_day(marks, start)[k]).0 / 86_400 == moment(marks[i])
                / 86_400;
        assert(days[k].0 / 86_400 == moment(marks[i]) / 86_400);
    }
    assert forall|k: int, m: int| 0 <= k < m < days.len() implies (#[trigger] days[k]).0 / 86_400
        < (#[trigger] days[m]).0 / 86_400 by {
        assert(per_day(marks, start)[k].0 / 86_400 < per_day(marks, start)[m].0 / 86_400);
    }
}

/// A list of points as integers.
pub open spec fn point_ints(v: Seq<(i64, i64)>) -> Seq<(int, int)> {
    v.map_values(|p: (i64, i64)| (p.0 as int, p.1 as int))
}

fn utc_day(at: i64) -> (r: i64)
    ensures
        r == at as int / 86_400,
{
    if at % 86_400 < 0 {
        at / 86_400 - 1
    } else {
        at / 86_400
    }
}

pub fn daily_points(readings: &Vec<Reading>, start: i64) -> (r: Vec<(i64, i64)>)
    ensures
        point_ints(r@) == daily(readings@, start as int),
        forall|k: int|
            0 <= k < r@.len() ==> start <= (#[trigger] r@[k]).0 && is_instant(r@[k].0 as int),
{
    let mut out: Vec<(i64, i64)> = Vec::new();
    let mut i: usize = 0;
    assert(readings@.take(0) =~= Seq::<Reading>::empty());
    assert(point_ints(out@) =~= Seq::<(int, int)>::empty());
    while i < readings.len()
        invariant
            i <= readings.len(),
            point_ints(out@) == daily(readings@.take(i as int), start as int),
            forall|k: int|
                0 <= k < out@.len() ==> start <= (#[trigger] out@[k]).0 && is_instant(
                    out@[k].0 as int,
                ),
        decreases readings.len() - i,
    {
        assert(readings@.take(i + 1).drop_last() =~= readings@.take(i as int));
        assert(readings@.take(i + 1).last() == readings@[i as int]);
        let reading = &readings[i];
        let ghost was = out@;
        match parse_iso8601_utc(reading.ts.as_str()) {
            Some(at) => {
                if at >= start {
                    let n = out.len();
                    assert(n > 0 ==> point_ints(was).last() == (
                        was[n - 1].0 as int,
                        was[n - 1].1 as int,
                    ));
                    if n > 0 && utc_day(out[n - 1].0) == utc_day(at) {
                        let _ = out.pop();
                        out.push((at, reading.stars));
                        assert(point_ints(out@) =~= point_ints(was).drop_last().push(
                            (at as int, reading.stars as int),
                        ));
                    } else {
                        out.push((at, reading.stars));
                        assert(point_ints(out@) =~= point_ints(was).push(
                            (at as int, reading.stars as int),
                        ));
                    }
                }
            },
            None => {},
        }
        i += 1;
    }
    assert(readings@.take(i as int) =~= readings@);
    out
}

/// The smallest star count of a list of points.
pub open spec fn lowest(days: Seq<(int, int)>) -> int
    decreases days.len(),
{
    if days.len() <= 1 {
        days[0].1
    } else if days.last().1 < lowest(days.drop_last()) {
        days.last().1
    } else {
        lowest(days.drop_last())
    }
}

/// The largest star count of a list of points.
pub open spec fn highest(days: Seq<(int, int)>) -> int
    decreases days.len(),
{
    if days.len() <= 1 {
        days[0].1
    } else if days.last().1 > highest(days.drop_last()) {
        days.last().1
    } else {
        highest(days.drop_last())
    }
}

proof fn lemma_extremes(days: Seq<(int, int)>)
    requires
        days.len() > 0,
    ensures
        forall|k: int| 0 <= k < days.len() ==> lowest(days) <= (#[trigger] days[k]).1 <= highest(days),
        exists|k: int| 0 <= k < days.len() && (#[trigger] days[k]).1 == lowest(days),
        exists|k: int| 0 <= k < days.len() && (#[trigger] days[k]).1 == highest(days),
    decreases days.len(),
{
    if days.len() == 1 {
        assert(days[0].1 == lowest(days));
        assert(days[0].1 == highest(days));
    } else {
        let head = days.drop_last();
        lemma_extremes(head);
        assert forall|k: int| 0 <= k < days.len() implies lowest(days) <= (#[trigger] days[k]).1
            <= highest(days) by {
            if k < head.len() {
                assert(days[k] == head[k]);
            }
        }
        let a = choose|k: int| 0 <= k < head.len() && (#[trigger] head[k]).1 == lowest(head);
        let b = choose|k: int| 0 <= k < head.len() && (#[trigger] head[k]).1 == highest(head);
        assert(days[a] == head[a] && days[b] == head[b]);
        assert(days[days.len() - 1] == days.last());
    }
}

fn extremes(days: &Vec<(i64, i64)>) -> (r: (i64, i64))
    requires
        days.len() > 0,
    ensures
        r.0 == lowest(point_ints(days@)),
        r.1 == highest(point_ints(days@)),
{
    let ghost all = point_ints(days@);
    let mut lo: i64 = days[0].1;
    let mut hi: i64 = days[0].1;
    let mut i: usize = 1;
    assert(all[0] == (days@[0].0 as int, days@[0].1 as int));
    assert(all.take(1)[0] == all[0]);
    while i < days.len()
        invariant
            1 <= i <= days.len(),
            all == point_ints(days@),
            lo == lowest(all.take(i as int)),
            hi == highest(all.take(i as int)),
        decreases days.len() - i,
    {
        assert(all.take(i + 1).drop_last() =~= all.take(i as int));
        assert(all.take(i + 1).last() == (days@[i as int].0 as int, days@[i as int].1 as int));
        let stars = days[i].1;
        if stars < lo {
            lo = stars;
        }
        if stars > hi {
            hi = stars;
        }
        i += 1;
    }
    assert(all.take(i as int) =~= all);
    (lo, hi)
}

/// How far a list of points moves, zero for one that is no line.
pub open spec fn spread(days: Seq<(int, int)>) -> int {
    if days.len() < 2 {
        0
    } else {
        highest(days) - lowest(days)
    }
}

/// How far a series moved inside the window, for a board's shared scale.
pub fn spark_range(readings: &Vec<Reading>, now: i64) -> (r: u64)
    requires
        now - SPARK_WINDOW >= i64::MIN,
    ensures
        r == spread(daily(readings@, now - SPARK_WINDOW)),
{
    let days = daily_points(readings, now - SPARK_WINDOW);
    if days.len() < 2 {
        return 0;
    }
    proof {
        lemma_extremes(point_ints(days@));
        assert(point_ints(days@)[0].1 <= highest(point_ints(days@)));
    }
    let (lo, hi) = extremes(&days);
    (hi as i128 - lo as i128) as u64
}

/// The slope of a line: so many pixels for so many stars. A series drawn alone takes the whole
/// region. On a board it is drawn in the stars per pixel of the row that moved furthest,
/// though never with less than a pixel of rise: dead flat stays the mark of a series that did
/// not move.
pub open spec fn slope(range: int, height: int, shared: Option<u64>) -> (int, int) {
    match shared {
        Some(s) => if s <= range {
            (height, range)
        } else if height * range >= s {
            (height, s as int)
        } else {
            (1, range)
        },
        None => (height, range),
    }
}

/// Every row of a board that rises by a pixel at least is drawn in the same stars per pixel, so
/// a steeper line is a faster repo, comparable row to row.
pub proof fn law_rows_share_one_scale(height: int, one: int, other: int, shared: u64)
    requires
        0 < one <= shared,
        0 < other <= shared,
        height * one >= shared,
        height * other >= shared,
    ensures
        slope(one, height, Some(shared)) == slope(other, height, Some(shared)),
        slope(one, height, Some(shared)) == (height, shared as int),
{
}

/// How far into a stretch of time a moment lies.
pub open spec fn within(at: int, start: int, window: int) -> int {
    if at <= start {
        0
    } else if at - start > window {
        window
    } else {
        at - start
    }
}

/// Where a day's count is drawn, in tenths of a pixel. x is real time, so a young series
/// occupies only the right and the empty left is the whole point.
pub open spec fn spark_point(
    day: (int, int),
    start: int,
    window: int,
    low: int,
    range: int,
    region: Region,
    shared: Option<u64>,
) -> Point {
    let (px, stars) = slope(range, region.bottom - region.top, shared);
    Point {
        x: half_even(10 * region.width * within(day.0, start, window), window) as i64,
        y: if range == 0 {
            10 * region.flat
        } else {
            half_even(10 * region.bottom * stars - 10 * px * (day.1 - low), stars)
        } as i64,
    }
}

/// A list of points as they are drawn over a stretch of time.
pub open spec fn drawn(
    days: Seq<(int, int)>,
    start: int,
    window: int,
    region: Region,
    shared: Option<u64>,
) -> Seq<Point> {
    days.map_values(
        |day: (int, int)|
            spark_point(day, start, window, lowest(days), spread(days), region, shared),
    )
}

/// The last 30 days of a series as points in a region; fewer than two days are no line.
pub open spec fn spark_line(
    readings: Seq<Reading>,
    now: int,
    region: Region,
    shared: Option<u64>,
) -> Seq<Point> {
    let start = now - SPARK_WINDOW;
    let days = daily(readings, start);
    if days.len() < 2 {
        Seq::empty()
    } else {
        drawn(days, start, SPARK_WINDOW as int, region, shared)
    }
}

/// The whole of a series as points in a region, from the day of its first reading to that of
/// its last; fewer than two days are no line.
pub open spec fn history_line(readings: Seq<Reading>, region: Region) -> Seq<Point> {
    let days = daily(readings, FIRST_INSTANT as int);
    if days.len() < 2 || days.last().0 <= days[0].0 {
        Seq::empty()
    } else {
        drawn(days, days[0].0, days.last().0 - days[0].0, region, None)
    }
}

/// A rounded quotient lies between two integers that the quotient lies between.
proof fn lemma_half_even_between(n: int, d: int, a: int, b: int)
    requires
        d > 0,
        a * d <= n <= b * d,
    ensures
        a <= half_even(n, d) <= b,
{
    vstd::arithmetic::div_mod::lemma_fundamental_div_mod(n, d);
    vstd::arithmetic::div_mod::lemma_mod_bound(n, d);
    let q = n / d;
    let r = n % d;
    assert(a <= q) by (nonlinear_arith)
        requires
            a * d <= n,
            n == d * q + r,
            0 <= r < d,
            d > 0,
    ;
    assert(q <= b && (q == b ==> r == 0)) by (nonlinear_arith)
        requires
            n <= b * d,
            n == d * q + r,
            0 <= r < d,
            d > 0,
    ;
}

/// The slope of a line is at most the region's height over the series' own range, and at least
/// a pixel over it.
proof fn lemma_slope(range: int, height: int, shared: Option<u64>)
    requires
        range > 0,
        height >= 1,
    ensures
        ({
            let (px, stars) = slope(range, height, shared);
            &&& 1 <= px <= height
            &&& stars >= range
            &&& px * range <= height * stars
            &&& px * range >= stars
        }),
{
    let (px, stars) = slope(range, height, shared);
    assert(px * range <= height * stars) by (nonlinear_arith)
        requires
            1 <= px <= height,
            0 < range <= stars,
    ;
    assert(height * range >= range) by (nonlinear_arith)
        requires
            height >= 1,
            range > 0,
    ;
}

proof fn lemma_spark_point_in_region(
    day: (int, int),
    start: int,
    window: int,
    low: int,
    range: int,
    region: Region,
    shared: Option<u64>,
)
    requires
        region.wf(),
        window > 0,
        0 <= day.1 - low <= range,
    ensures
        ({
            let (px, stars) = slope(range, region.bottom - region.top, shared);
            let past = within(day.0, start, window);
            &&& 0 <= half_even(10 * region.width * past, window) <= 10 * region.width
            &&& range > 0 ==> 10 * region.top <= half_even(
                10 * region.bottom * stars - 10 * px * (day.1 - low),
                stars,
            ) <= 10 * region.bottom
            &&& range > 0 && day.1 == low ==> half_even(
                10 * region.bottom * stars - 10 * px * (day.1 - low),
                stars,
            ) == 10 * region.bottom
            &&& range > 0 && day.1 - low == range ==> half_even(
                10 * region.bottom * stars - 10 * px * (day.1 - low),
                stars,
            ) <= 10 * region.bottom - 10
        }),
{
    let past = within(day.0, start, window);
    assert(0 <= 10 * region.width * past <= 10 * region.width * window) by (nonlinear_arith)
        requires
            0 <= past <= window,
            region.width >= 0,
    ;
    lemma_half_even_between(10 * region.width * past, window, 0, 10 * region.width as int);
    if range > 0 {
        let height = region.bottom - region.top;
        let (px, stars) = slope(range, height, shared);
        lemma_slope(range, height, shared);
        let up = day.1 - low;
        let n = 10 * region.bottom * stars - 10 * px * up;
        assert(0 <= px * up <= px * range) by (nonlinear_arith)
            requires
                1 <= px,
                0 <= up <= range,
        ;
        assert(10 * px * up == 10 * (px * up)) by (nonlinear_arith);
        assert(10 * region.bottom * stars - 10 * (height * stars) == 10 * region.top * stars)
            by (nonlinear_arith)
            requires
                height == region.bottom - region.top,
        ;
        lemma_half_even_between(n, stars, 10 * region.top as int, 10 * region.bottom as int);
        if up == 0 {
            assert(px * up == 0) by (nonlinear_arith)
                requires
                    up == 0,
            ;
            lemma_half_even_between(n, stars, 10 * region.bottom as int, 10 * region.bottom as int);
        }
        if up == range {
            assert((10 * region.bottom - 10) * stars == 10 * region.bottom * stars - 10 * stars)
                by (nonlinear_arith);
            lemma_half_even_between(
                n,
                stars,
                10 * region.top as int,
                10 * region.bottom - 10,
            );
        }
    }
}

proof fn lemma_drawn_in_region(
    days: Seq<(int, int)>,
    start: int,
    window: int,
    region: Region,
    shared: Option<u64>,
)
    requires
        region.wf(),
        window > 0,
        days.len() >= 2,
    ensures
        forall|k: int|
            0 <= k < days.len() ==> {
                let p = #[trigger] drawn(days, start, window, region, shared)[k];
                0 <= p.x <= 10 * region.width && 10 * region.top <= p.y <= 10 * region.bottom
            },
{
    lemma_extremes(days);
    assert forall|k: int| 0 <= k < days.len() implies {
        let p = #[trigger] drawn(days, start, window, region, shared)[k];
        0 <= p.x <= 10 * region.width && 10 * region.top <= p.y <= 10 * region.bottom
    } by {
        lemma_spark_point_in_region(
            days[k],
            start,
            window,
            lowest(days),
            spread(days),
            region,
            shared,
        );
    }
}

/// Every point of a line lies in the region that it is drawn in.
pub proof fn law_sparklines_stay_in_their_region(
    readings: Seq<Reading>,
    now: int,
    region: Region,
    shared: Option<u64>,
)
    requires
        region.wf(),
    ensures
        forall|k: int|
            0 <= k < spark_line(readings, now, region, shared).len() ==> {
                let p = #[trigger] spark_line(readings, now, region, shared)[k];
                0 <= p.x <= 10 * region.width && 10 * region.top <= p.y <= 10 * region.bottom
            },
        forall|k: int|
            0 <= k < history_line(readings, region).len() ==> {
                let p = #[trigger] history_line(readings, region)[k];
                0 <= p.x <= 10 * region.width && 10 * region.top <= p.y <= 10 * region.bottom
            },
{
    let start = now - SPARK_WINDOW;
    let recent = daily(readings, start);
    let days = daily(readings, FIRST_INSTANT as int);
    if recent.len() >= 2 {
        lemma_drawn_in_region(recent, start, SPARK_WINDOW as int, region, shared);
    }
    if days.len() >= 2 && days.last().0 > days[0].0 {
        lemma_drawn_in_region(days, days[0].0, days.last().0 - days[0].0, region, None);
    }
}

/// The history starts at the left edge with the first day that was read and ends at the right
/// edge with the last.
pub proof fn law_the_history_spans_its_region(readings: Seq<Reading>, region: Region)
    requires
        region.wf(),
        history_line(readings, region).len() > 0,
    ensures
        history_line(readings, region)[0].x == 0,
        history_line(readings, region).last().x == 10 * region.width,
        history_line(readings, region).len() == daily(readings, FIRST_INSTANT as int).len(),
{
    let days = daily(readings, FIRST_INSTANT as int);
    let span = days.last().0 - days[0].0;
    lemma_half_even_between(10 * region.width * 0, span, 0, 0);
    lemma_half_even_between(
        10 * region.width * span,
        span,
        10 * region.width as int,
        10 * region.width as int,
    );
}

/// A series that moved at all is drawn with at least a pixel between its lowest and its highest
/// day, whatever scale a board sets, and one that did not move is drawn flat.
pub proof fn law_only_still_series_draw_flat(
    readings: Seq<Reading>,
    now: int,
    region: Region,
    shared: Option<u64>,
)
    requires
        region.wf(),
        daily(readings, now - SPARK_WINDOW).len() >= 2,
    ensures
        spread(daily(readings, now - SPARK_WINDOW)) > 0 ==> exists|a: int, b: int|
            0 <= a < spark_line(readings, now, region, shared).len() && 0 <= b < spark_line(
                readings,
                now,
                region,
                shared,
            ).len() && (#[trigger] spark_line(readings, now, region, shared)[a]).y - (
            #[trigger] spark_line(readings, now, region, shared)[b]).y >= 10,
        spread(daily(readings, now - SPARK_WINDOW)) == 0 ==> forall|k: int|
            0 <= k < spark_line(readings, now, region, shared).len() ==> (
            #[trigger] spark_line(readings, now, region, shared)[k]).y == 10 * region.flat,
{
    let start = now - SPARK_WINDOW;
    let days = daily(readings, start);
    let line = spark_line(readings, now, region, shared);
    lemma_extremes(days);
    assert(line.len() == days.len());
    assert forall|k: int| 0 <= k < days.len() implies #[trigger] line[k] == spark_point(
        days[k],
        start,
        SPARK_WINDOW as int,
        lowest(days),
        spread(days),
        region,
        shared,
    ) by {}
    if spread(days) > 0 {
        let a = choose|k: int| 0 <= k < days.len() && (#[trigger] days[k]).1 == lowest(days);
        let b = choose|k: int| 0 <= k < days.len() && (#[trigger] days[k]).1 == highest(days);
        let window = SPARK_WINDOW as int;
        let range = spread(days);
        lemma_spark_point_in_region(days[a], start, window, lowest(days), range, region, shared);
        lemma_spark_point_in_region(days[b], start, window, lowest(days), range, region, shared);
        assert(line[a].y - line[b].y >= 10);
    }
}

/// Whether two counts are the smallest and the largest of a list of points.
pub open spec fn bounds(days: Seq<(int, int)>, low: int, high: int) -> bool {
    &&& forall|k: int| 0 <= k < days.len() ==> low <= (#[trigger] days[k]).1 <= high
    &&& exists|k: int| 0 <= k < days.len() && (#[trigger] days[k]).1 == low
    &&& exists|k: int| 0 <= k < days.len() && (#[trigger] days[k]).1 == high
}

/// Whether a point shows a count at its height: above the bottom row in proportion to what the
/// count has over the lowest. Alone, or as the row that moved furthest, the whole range takes the
/// whole height; on a board as much of it as its range is of the shared one, and a pixel at the
/// least.
pub open spec fn at_height(
    y: int,
    count: int,
    low: int,
    high: int,
    region: Region,
    shared: Option<u64>,
) -> bool {
    let up = 10 * region.bottom - y;
    let height = region.bottom - region.top;
    if low == high {
        y == 10 * region.flat
    } else if shared matches Some(s) && s > high - low {
        if height * (high - low) >= shared->0 {
            nearest(up, shared->0 as int, 10 * height * (count - low))
        } else {
            nearest(up, high - low, 10 * (count - low))
        }
    } else {
        nearest(up, high - low, 10 * height * (count - low))
    }
}

/// Whether a point shows a moment at its distance from the left edge, in proportion to the time
/// that passed; what lies outside of the time that is drawn stands at its edge.
pub open spec fn at_distance(x: int, at: int, start: int, window: int, region: Region) -> bool {
    if at <= start {
        x == 0
    } else if at >= start + window {
        x == 10 * region.width
    } else {
        nearest(x, window, 10 * region.width * (at - start))
    }
}

proof fn lemma_bounds_are_extremes(days: Seq<(int, int)>, low: int, high: int)
    requires
        bounds(days, low, high),
    ensures
        low == lowest(days),
        high == highest(days),
{
    let a = choose|k: int| 0 <= k < days.len() && (#[trigger] days[k]).1 == low;
    let b = choose|k: int| 0 <= k < days.len() && (#[trigger] days[k]).1 == high;
    lemma_extremes(days);
    assert(lowest(days) <= days[a].1 && days[b].1 <= highest(days));
}

proof fn lemma_point_is_proportional(
    day: (int, int),
    start: int,
    window: int,
    low: int,
    high: int,
    region: Region,
    shared: Option<u64>,
)
    requires
        region.wf(),
        window > 0,
        low <= day.1 <= high,
    ensures
        ({
            let p = spark_point(day, start, window, low, high - low, region, shared);
            &&& at_height(p.y as int, day.1, low, high, region, shared)
            &&& at_distance(p.x as int, day.0, start, window, region)
        }),
{
    let range = high - low;
    let height = region.bottom - region.top;
    let past = within(day.0, start, window);
    let p = spark_point(day, start, window, low, range, region, shared);
    lemma_spark_point_in_region(day, start, window, low, range, region, shared);
    let x = half_even(10 * region.width * past, window);
    law_half_even_is_nearest(10 * region.width * past, window);
    if past == 0 {
        assert(10 * region.width * past == 0) by (nonlinear_arith)
            requires
                past == 0,
        ;
        lemma_half_even_between(10 * region.width * past, window, 0, 0);
    }
    if past == window {
        lemma_half_even_between(
            10 * region.width * past,
            window,
            10 * region.width as int,
            10 * region.width as int,
        );
    }
    if range > 0 {
        let (px, stars) = slope(range, height, shared);
        lemma_slope(range, height, shared);
        let rise = 10 * px * (day.1 - low);
        let n = 10 * region.bottom * stars - rise;
        let y = half_even(n, stars);
        law_half_even_is_nearest(n, stars);
        assert((10 * region.bottom - y) * stars == 10 * region.bottom * stars - y * stars)
            by (nonlinear_arith);
        assert(10 * 1 * (day.1 - low) == 10 * (day.1 - low));
        assert(nearest(10 * region.bottom - y, stars, rise));
    }
}

proof fn lemma_drawn_is_proportional(
    days: Seq<(int, int)>,
    start: int,
    window: int,
    low: int,
    high: int,
    region: Region,
    shared: Option<u64>,
)
    requires
        region.wf(),
        window > 0,
        days.len() >= 2,
        bounds(days, low, high),
    ensures
        forall|k: int|
            0 <= k < days.len() ==> {
                let p = #[trigger] drawn(days, start, window, region, shared)[k];
                &&& at_height(p.y as int, days[k].1, low, high, region, shared)
                &&& at_distance(p.x as int, days[k].0, start, window, region)
            },
{
    lemma_bounds_are_extremes(days, low, high);
    assert forall|k: int| 0 <= k < days.len() implies {
        let p = #[trigger] drawn(days, start, window, region, shared)[k];
        &&& at_height(p.y as int, days[k].1, low, high, region, shared)
        &&& at_distance(p.x as int, days[k].0, start, window, region)
    } by {
        lemma_point_is_proportional(days[k], start, window, low, high, region, shared);
    }
}

/// A sparkline shows every day of the last 30, each at its time across and at its count up:
/// equal steps in stars are equal steps in height, and equal times equal steps to the right.
pub proof fn law_sparklines_are_proportional(
    readings: Seq<Reading>,
    now: int,
    low: int,
    high: int,
    region: Region,
    shared: Option<u64>,
)
    requires
        region.wf(),
        bounds(daily(readings, now - 30 * 86_400), low, high),
    ensures
        ({
            let days = daily(readings, now - 30 * 86_400);
            let line = spark_line(readings, now, region, shared);
            &&& days.len() < 2 ==> line.len() == 0
            &&& days.len() >= 2 ==> line.len() == days.len()
            &&& forall|k: int|
                0 <= k < line.len() ==> at_height(
                    (#[trigger] line[k]).y as int,
                    days[k].1,
                    low,
                    high,
                    region,
                    shared,
                ) && at_distance(
                    line[k].x as int,
                    days[k].0,
                    now - 30 * 86_400,
                    2_592_000,
                    region,
                )
        }),
{
    let start = now - SPARK_WINDOW;
    let days = daily(readings, start);
    if days.len() >= 2 {
        lemma_drawn_is_proportional(days, start, SPARK_WINDOW as int, low, high, region, shared);
    }
}

/// A history shows every day that was ever read, each at its time across, from the first to the
/// last, and at its count up, over the whole height.
pub proof fn law_histories_are_proportional(
    readings: Seq<Reading>,
    low: int,
    high: int,
    region: Region,
)
    requires
        region.wf(),
        bounds(daily(readings, FIRST_INSTANT as int), low, high),
    ensures
        ({
            let days = daily(readings, FIRST_INSTANT as int);
            let line = history_line(readings, region);
            let span = days.last().0 - days[0].0;
            &&& days.len() < 2 || span <= 0 ==> line.len() == 0
            &&& days.len() >= 2 && span > 0 ==> line.len() == days.len()
            &&& forall|k: int|
                0 <= k < line.len() ==> at_height(
                    (#[trigger] line[k]).y as int,
                    days[k].1,
                    low,
                    high,
                    region,
                    None,
                ) && at_distance(line[k].x as int, days[k].0, days[0].0, span, region)
        }),
{
    let days = daily(readings, FIRST_INSTANT as int);
    let span = days.last().0 - days[0].0;
    if days.len() >= 2 && span > 0 {
        lemma_drawn_is_proportional(days, days[0].0, span, low, high, region, None);
    }
}

/// Of two days of a line the one with more stars is never drawn lower, and the later one never
/// further left.
pub proof fn law_more_stars_are_never_drawn_lower(
    readings: Seq<Reading>,
    now: int,
    region: Region,
    shared: Option<u64>,
    a: int,
    b: int,
)
    requires
        region.wf(),
        0 <= a < spark_line(readings, now, region, shared).len(),
        0 <= b < spark_line(readings, now, region, shared).len(),
    ensures
        ({
            let days = daily(readings, now - 30 * 86_400);
            let line = spark_line(readings, now, region, shared);
            &&& days[a].1 <= days[b].1 ==> line[b].y <= line[a].y
            &&& days[a].0 <= days[b].0 ==> line[a].x <= line[b].x
        }),
{
    let start = now - SPARK_WINDOW;
    let window = SPARK_WINDOW as int;
    let days = daily(readings, start);
    let low = lowest(days);
    let range = spread(days);
    lemma_extremes(days);
    lemma_spark_point_in_region(days[a], start, window, low, range, region, shared);
    lemma_spark_point_in_region(days[b], start, window, low, range, region, shared);
    if days[a].0 <= days[b].0 {
        let (x, y) = (within(days[a].0, start, window), within(days[b].0, start, window));
        assert(10 * region.width * x <= 10 * region.width * y) by (nonlinear_arith)
            requires
                0 <= x <= y,
                region.width >= 0,
        ;
        law_rounding_keeps_the_order(10 * region.width * x, 10 * region.width * y, window);
    }
    if days[a].1 <= days[b].1 && range > 0 {
        let (px, stars) = slope(range, region.bottom - region.top, shared);
        lemma_slope(range, region.bottom - region.top, shared);
        let (x, y) = (days[a].1 - low, days[b].1 - low);
        assert(10 * px * x <= 10 * px * y) by (nonlinear_arith)
            requires
                x <= y,
                px >= 1,
        ;
        law_rounding_keeps_the_order(
            10 * region.bottom * stars - 10 * px * y,
            10 * region.bottom * stars - 10 * px * x,
            stars,
        );
    }
}

/// How far a series moved is what lies between its smallest and its largest day.
pub proof fn law_the_range_is_between_the_extremes(days: Seq<(int, int)>, low: int, high: int)
    requires
        bounds(days, low, high),
    ensures
        spread(days) == high - low,
{
    lemma_bounds_are_extremes(days, low, high);
    if days.len() < 2 {
        let a = choose|k: int| 0 <= k < days.len() && (#[trigger] days[k]).1 == low;
        let b = choose|k: int| 0 <= k < days.len() && (#[trigger] days[k]).1 == high;
        assert(a == b);
    }
}

fn plot(
    days: &Vec<(i64, i64)>,
    start: i64,
    window: i64,
    region: &Region,
    shared_range: Option<u64>,
) -> (r: Vec<Point>)
    requires
        days.len() >= 2,
        0 < window <= LAST_INSTANT - FIRST_INSTANT,
        region.wf(),
    ensures
        r@ == drawn(point_ints(days@), start as int, window as int, *region, shared_range),
{
    let ghost all = point_ints(days@);
    let mut out: Vec<Point> = Vec::new();
    let (lo, hi) = extremes(days);
    proof {
        lemma_extremes(all);
        assert(all[0].1 <= highest(all));
    }
    let range: i128 = hi as i128 - lo as i128;
    let height: i128 = (region.bottom - region.top) as i128;
    let (px, stars): (i128, i128) = match shared_range {
        Some(s) => {
            if s as i128 <= range {
                (height, range)
            } else {
                assert(0 <= height * range <= MAX_PIXELS * u64::MAX) by (nonlinear_arith)
                    requires
                        0 <= height <= MAX_PIXELS,
                        0 <= range <= u64::MAX,
                ;
                if height * range >= s as i128 {
                    (height, s as i128)
                } else {
                    (1, range)
                }
            }
        },
        None => (height, range),
    };
    let mut i: usize = 0;
    while i < days.len()
        invariant
            i <= days.len(),
            all == point_ints(days@),
            all.len() >= 2,
            0 < window <= LAST_INSTANT - FIRST_INSTANT,
            region.wf(),
            lo == lowest(all),
            range == highest(all) - lowest(all),
            0 <= range <= u64::MAX,
            height == region.bottom - region.top,
            (px as int, stars as int) == slope(range as int, height as int, shared_range),
            0 <= px <= MAX_PIXELS,
            0 <= stars <= u64::MAX,
            forall|k: int|
                0 <= k < all.len() ==> lowest(all) <= (#[trigger] all[k]).1 <= highest(all),
            out.len() == i,
            forall|k: int|
                0 <= k < i ==> #[trigger] out@[k] == spark_point(
                    all[k],
                    start as int,
                    window as int,
                    lowest(all),
                    spread(all),
                    *region,
                    shared_range,
                ),
        decreases days.len() - i,
    {
        let (at, count) = days[i];
        assert(all[i as int] == (at as int, count as int));
        let past: i128 = if at <= start {
            0
        } else if at as i128 - start as i128 > window as i128 {
            window as i128
        } else {
            at as i128 - start as i128
        };
        let up: i128 = count as i128 - lo as i128;
        proof {
            lemma_spark_point_in_region(
                (at as int, count as int),
                start as int,
                window as int,
                lo as int,
                range as int,
                *region,
                shared_range,
            );
            assert(0 <= 10 * region.width * past <= 10 * MAX_PIXELS * (LAST_INSTANT - FIRST_INSTANT))
                by (nonlinear_arith)
                requires
                    0 <= past <= LAST_INSTANT - FIRST_INSTANT,
                    0 <= region.width <= MAX_PIXELS,
            ;
        }
        let x = nearest_even(10 * region.width as i128 * past, window as i128) as i64;
        let y = if range == 0 {
            10 * region.flat
        } else {
            proof {
                assert(0 <= 10 * region.bottom * stars <= 10 * MAX_PIXELS * u64::MAX)
                    by (nonlinear_arith)
                    requires
                        0 <= region.bottom <= MAX_PIXELS,
                        0 <= stars <= u64::MAX,
                ;
                assert(0 <= 10 * px * up <= 10 * MAX_PIXELS * u64::MAX) by (nonlinear_arith)
                    requires
                        0 <= px <= MAX_PIXELS,
                        0 <= up <= u64::MAX,
                ;
                lemma_slope(range as int, height as int, shared_range);
            }
            nearest_even(10 * region.bottom as i128 * stars - 10 * px * up, stars) as i64
        };
        out.push(Point { x, y });
        i += 1;
    }
    assert(out@ =~= drawn(all, start as int, window as int, *region, shared_range));
    out
}

/// The last 30 days of a series as points in a region.
///
/// `shared_range` is the largest 30-day movement on the board this series sits on. A series
/// drawn alone (the card) passes `None` and takes the whole region, because a lone spark has
/// nothing to be comparable with and its magnitude is printed beside it.
pub fn spark_points(
    readings: &Vec<Reading>,
    now: i64,
    region: &Region,
    shared_range: Option<u64>,
) -> (r: Vec<Point>)
    requires
        now - SPARK_WINDOW >= i64::MIN,
        region.wf(),
    ensures
        r@ == spark_line(readings@, now as int, *region, shared_range),
{
    let start = now - SPARK_WINDOW;
    let days = daily_points(readings, start);
    if days.len() < 2 {
        let none: Vec<Point> = Vec::new();
        assert(none@ =~= Seq::<Point>::empty());
        return none;
    }
    plot(&days, start, SPARK_WINDOW, region, shared_range)
}

/// The whole of a series as points in a region. It starts at the day of the first reading, not
/// at the day the repo did.
pub fn history_points(readings: &Vec<Reading>, region: &Region) -> (r: Vec<Point>)
    requires
        region.wf(),
    ensures
        r@ == history_line(readings@, *region),
{
    let days = daily_points(readings, FIRST_INSTANT);
    let n = days.len();
    let ghost all = point_ints(days@);
    if n >= 2 {
        assert(all[0].0 == days@[0].0 && all.last().0 == days@[n - 1].0);
        let first = days[0].0;
        let last = days[n - 1].0;
        if last > first {
            return plot(&days, first, last - first, region, None);
        }
    }
    let none: Vec<Point> = Vec::new();
    assert(none@ =~= Seq::<Point>::empty());
    none
}

} // verus!
