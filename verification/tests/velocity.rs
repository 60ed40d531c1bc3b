use afterglow::badge::{Point, Share};
use afterglow::history::history_spark;
use afterglow::time::{iso8601_utc, parse_iso8601_utc};
use afterglow::velocity::{
    card_spark, daily_points, history_points, mini_spark, pair_velocity, peak, percentile_of, proxy_average,
    series_velocity, spark_points, spark_range, velocity, velocity_cutoff, Reading, Region, MAX_PIXELS,
};

const HOUR: i64 = 3_600;

fn r(ts: &str, stars: i64) -> Reading {
    Reading {
        ts: ts.to_string(),
        stars,
    }
}

#[test]
fn velocity_is_stars_per_day_between_two_readings() {
    let over_a_day =
        |a, b| pair_velocity(&r("2026-07-31T00:00:00Z", a), &r("2026-07-30T00:00:00Z", b));
    assert_eq!(over_a_day(1_100, 1_000), Some(100));
    assert_eq!(over_a_day(1_000, 1_000), Some(0));
    // Losing stars is a real observation, kept as one.
    assert_eq!(over_a_day(900, 1_000), Some(-100));
    // Half a day at 50 is still 100 a day.
    assert_eq!(
        pair_velocity(
            &r("2026-07-31T00:00:00Z", 1_050),
            &r("2026-07-30T12:00:00Z", 1_000)
        ),
        Some(100)
    );
    // No span to divide by, and no readable timestamp.
    assert_eq!(
        pair_velocity(&r("2026-07-31T00:00:00Z", 1), &r("2026-07-31T00:00:00Z", 0)),
        None
    );
    assert_eq!(
        pair_velocity(&r("yesterday", 1), &r("2026-07-30T00:00:00Z", 0)),
        None
    );
}

#[test]
fn rates_are_to_the_nearest_star_and_ties_go_away_from_zero() {
    // One star over two days is half a star a day.
    let over_two_days =
        |a, b| pair_velocity(&r("2026-07-31T00:00:00Z", a), &r("2026-07-29T00:00:00Z", b));
    assert_eq!(over_two_days(1, 0), Some(1));
    assert_eq!(over_two_days(0, 1), Some(-1));
    assert_eq!(over_two_days(3, 0), Some(2));
    // A rate too large for a number is the largest number.
    assert_eq!(
        pair_velocity(
            &r("2026-07-31T00:00:01Z", i64::MAX),
            &r("2026-07-31T00:00:00Z", i64::MIN)
        ),
        Some(i64::MAX)
    );
}

#[test]
fn a_series_is_measured_against_a_reading_half_a_day_back() {
    let series = |list: &[(&str, i64)]| {
        series_velocity(&list.iter().map(|&(ts, stars)| r(ts, stars)).collect())
    };
    assert_eq!(series(&[]), None);
    assert_eq!(series(&[("2026-07-31T00:00:00Z", 5)]), None);
    // Three hours apart are one day seen twice.
    assert_eq!(
        series(&[("2026-07-30T21:00:00Z", 1), ("2026-07-31T00:00:00Z", 5)]),
        None
    );
    assert_eq!(
        series(&[("2026-07-30T12:00:00Z", 1), ("2026-07-31T00:00:00Z", 5)]),
        Some(8)
    );
    assert_eq!(
        series(&[("2026-07-30T12:00:01Z", 1), ("2026-07-31T00:00:00Z", 5)]),
        None
    );
    // The newest reading that is far enough back counts, not the oldest.
    assert_eq!(
        series(&[
            ("2026-07-01T00:00:00Z", 0),
            ("2026-07-30T00:00:00Z", 90),
            ("2026-07-30T23:00:00Z", 99),
            ("2026-07-31T00:00:00Z", 100),
        ]),
        Some(10)
    );
    assert_eq!(series(&[("2026-07-30T00:00:00Z", 1), ("junk", 5)]), None);
}

#[test]
fn the_cutoff_lies_half_a_day_before_the_latest_reading() {
    let latest = r("2026-07-31T00:00:00Z", 5);
    assert_eq!(
        velocity_cutoff(&latest).as_deref(),
        Some("2026-07-30T12:00:00Z")
    );
    assert_eq!(velocity_cutoff(&r("junk", 5)), None);
    assert_eq!(velocity(Some(&latest), None), None);
    assert_eq!(velocity(None, None), None);
    assert_eq!(
        velocity(Some(&latest), Some(&r("2026-07-30T00:00:00Z", 3))),
        Some(2)
    );
}

#[test]
fn a_proxy_average_is_only_offered_for_young_repos() {
    let now = 400 * 24 * HOUR;
    let at = |days: i64| iso8601_utc(now - days * 24 * HOUR);
    assert_eq!(proxy_average(Some(&at(10)), 300, now), Some(30));
    assert_eq!(proxy_average(Some(&at(179)), 1_790, now), Some(10));
    assert_eq!(proxy_average(Some(&at(181)), 1_000, now), None);
    // Younger than a day still divides by a day.
    assert_eq!(proxy_average(Some(&at(0)), 40, now), Some(40));
    // Nothing to divide by.
    assert_eq!(proxy_average(None, 1_000, now), None);
    assert_eq!(proxy_average(Some("who knows"), 1_000, now), None);
    // The last day that is still young.
    assert_eq!(proxy_average(Some(&at(180)), 1_800, now), Some(10));
}

#[test]
fn a_percentile_is_a_share_of_the_pool() {
    let fleet = vec![400, 300, 200, 100];
    let share = |ahead, pool| Share { ahead, pool };
    assert_eq!(percentile_of(&fleet, 400), share(1, 4));
    assert_eq!(percentile_of(&fleet, 300), share(2, 4));
    assert_eq!(percentile_of(&fleet, 100), share(4, 4));
    // Faster than everyone measured is still one repo out of the pool.
    assert_eq!(percentile_of(&fleet, 5_000), share(1, 4));
    assert_eq!(percentile_of(&vec![], 7), share(1, 1));
}

#[test]
fn one_point_a_day_is_the_last_of_it() {
    let at = |ts: &str| parse_iso8601_utc(ts).unwrap();
    let readings = vec![
        r("2026-07-14T23:59:59Z", 1),
        r("2026-07-15T00:00:00Z", 2),
        r("2026-07-15T23:59:59Z", 3),
        r("junk", 4),
        r("2026-07-16T00:00:00Z", 5),
    ];
    assert_eq!(
        daily_points(&readings, at("2026-07-15T00:00:00Z")),
        [(at("2026-07-15T23:59:59Z"), 3), (at("2026-07-16T00:00:00Z"), 5)]
    );
}

#[test]
fn a_line_spans_its_region_and_never_leaves_it() {
    let now = parse_iso8601_utc("2026-07-31T00:00:00Z").unwrap();
    let readings = vec![
        r("2026-07-01T00:00:00Z", 500),
        r("2026-07-10T00:00:00Z", 100),
        // Ahead of the clock: drawn at the right edge.
        r("2026-08-02T00:00:00Z", 900),
    ];
    assert_eq!(
        spark_points(&readings, now, &card_spark(), None),
        [
            Point { x: 0, y: 200 },
            Point { x: 1164, y: 360 },
            Point { x: 3880, y: 40 },
        ]
    );
    assert_eq!(spark_range(&readings, now), 800);
    assert_eq!(spark_range(&readings[..1].to_vec(), now), 0);
}

#[test]
fn a_board_draws_every_row_in_the_leaders_scale() {
    let now = parse_iso8601_utc("2026-07-31T00:00:00Z").unwrap();
    let rise = |stars: i64, shared: Option<u64>| {
        let readings = vec![
            r("2026-07-29T00:00:00Z", 200),
            r("2026-07-31T00:00:00Z", 200 + stars),
        ];
        let line = spark_points(&readings, now, &mini_spark(), shared);
        line[0].y - line[1].y
    };
    assert_eq!(rise(100, Some(100)), 160);
    assert_eq!(rise(50, Some(100)), 80);
    assert_eq!(rise(10, Some(100)), 16);
    // Movement is never drawn as none.
    assert_eq!(rise(1, Some(100)), 10);
    assert_eq!(rise(1, Some(1_000_000)), 10);
    // A lone series takes the whole region.
    assert_eq!(rise(1, None), 160);
    assert_eq!(rise(0, Some(100)), 0);
}

#[test]
fn the_peak_only_goes_up() {
    let mut readings = vec![];
    assert_eq!(peak(&readings), None);
    let mut add = |ts: &str, stars: i64| {
        readings.push(r(ts, stars));
        peak(&readings)
    };
    assert_eq!(add("2026-07-01T00:00:00Z", 100), None);
    assert_eq!(add("2026-07-02T00:00:00Z", 90), Some((-10, "2026-07-02".to_string())));
    let high = Some((210, "2026-07-03".to_string()));
    assert_eq!(add("2026-07-03T00:00:00Z", 300), high);
    // Slower, as fast, and too soon to tell: nothing moves.
    assert_eq!(add("2026-07-04T00:00:00Z", 310), high);
    assert_eq!(add("2026-07-05T00:00:00Z", 520), high);
    assert_eq!(add("junk", 9_000), high);
    assert_eq!(
        add("2026-07-06T00:00:00Z", 731),
        Some((211, "2026-07-06".to_string()))
    );
}

#[test]
fn the_history_spans_its_region() {
    let readings = vec![
        r("2020-01-01T00:00:00Z", 0),
        r("2020-01-02T00:00:00Z", 50),
        r("2020-01-03T06:00:00Z", 80),
        r("2020-01-03T12:00:00Z", 100),
    ];
    assert_eq!(
        history_points(&readings, &history_spark()),
        [
            Point { x: 0, y: 2960 },
            Point { x: 1552, y: 1500 },
            Point { x: 3880, y: 40 },
        ]
    );
    assert_eq!(history_points(&readings[..1].to_vec(), &history_spark()), []);
    // A series that does not move is a flat line.
    let still = vec![r("2020-01-01T00:00:00Z", 7), r("2020-01-02T00:00:00Z", 7)];
    assert_eq!(
        history_points(&still, &history_spark()),
        [Point { x: 0, y: 1500 }, Point { x: 3880, y: 1500 }]
    );
}

#[test]
fn a_region_is_as_large_as_its_tenths_can_be_counted() {
    let now = parse_iso8601_utc("2026-07-31T00:00:00Z").unwrap();
    let wide = Region {
        width: 1_000_000,
        top: 0,
        bottom: MAX_PIXELS,
        flat: 0,
    };
    let readings = vec![r("2026-07-01T00:00:00Z", 0), r("2026-07-31T00:00:00Z", 1)];
    assert_eq!(
        spark_points(&readings, now, &wide, None),
        [
            Point { x: 0, y: 10 * MAX_PIXELS },
            Point { x: 10_000_000, y: 0 },
        ]
    );
}
