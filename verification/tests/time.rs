use afterglow::time::{
    civil_from_days, date_utc, iso8601_utc, parse_iso8601_utc, FIRST_INSTANT, LAST_INSTANT, SECONDS_PER_DAY,
};

#[test]
fn formats_known_instants() {
    assert_eq!(iso8601_utc(0), "1970-01-01T00:00:00Z");
    assert_eq!(iso8601_utc(1), "1970-01-01T00:00:01Z");
    assert_eq!(iso8601_utc(1_784_206_313), "2026-07-16T12:51:53Z");
    assert_eq!(iso8601_utc(1_583_020_800), "2020-03-01T00:00:00Z");
    assert_eq!(iso8601_utc(951_782_400), "2000-02-29T00:00:00Z");
    assert_eq!(iso8601_utc(-1), "1969-12-31T23:59:59Z");
}

#[test]
fn formats_dates() {
    assert_eq!(date_utc(1_784_206_313), "2026-07-16");
    assert_eq!(
        date_utc(1_784_206_313 - 180 * SECONDS_PER_DAY),
        "2026-01-17"
    );
}

#[test]
fn round_trips_every_day_for_four_centuries() {
    let mut prev = String::new();
    for day in -36_524..109_572 {
        let s = date_utc(day * SECONDS_PER_DAY);
        assert_eq!(s.len(), 10);
        assert!(s > prev, "{s} did not follow {prev}");
        prev = s;
    }
}

#[test]
fn reading_undoes_writing() {
    for unix in [
        FIRST_INSTANT,
        -62_135_596_800,
        -1,
        0,
        951_782_399,
        951_782_400,
        1_784_206_313,
        LAST_INSTANT,
    ] {
        let text = iso8601_utc(unix);
        assert_eq!(text.len(), 20, "{text}");
        assert_eq!(parse_iso8601_utc(&text), Some(unix), "{text}");
    }
    assert_eq!(iso8601_utc(FIRST_INSTANT), "0000-01-01T00:00:00Z");
    assert_eq!(iso8601_utc(LAST_INSTANT), "9999-12-31T23:59:59Z");
}

#[test]
fn only_instants_as_they_are_written_can_be_read() {
    for text in [
        "",
        "yesterday",
        "2026-07-31",
        "2026-07-31 00:00:00Z",
        "2026-07-31T00:00:00",
        "2026-07-31T00:00:00Z ",
        "2026-02-29T00:00:00Z",
        "2026-13-01T00:00:00Z",
        "2026-00-01T00:00:00Z",
        "2026-07-32T00:00:00Z",
        "2026-07-31T24:00:00Z",
        "2026-07-31T00:60:00Z",
        "2026-07-31T00:00:60Z",
        "2026-07-3١T00:00:00Z",
    ] {
        assert_eq!(parse_iso8601_utc(text), None, "{text}");
    }
    assert_eq!(parse_iso8601_utc("2024-02-29T00:00:00Z"), Some(1_709_164_800));
}

#[test]
fn years_outside_four_digits_are_written_with_what_they_need() {
    assert_eq!(iso8601_utc(LAST_INSTANT + 1), "10000-01-01T00:00:00Z");
    assert_eq!(iso8601_utc(FIRST_INSTANT - 1), "-001-12-31T23:59:59Z");
    assert_eq!(parse_iso8601_utc("10000-01-01T00:00:00Z"), None);
}

#[test]
fn the_order_of_texts_is_the_order_of_instants() {
    let mut prev = iso8601_utc(FIRST_INSTANT);
    let mut at = FIRST_INSTANT;
    while at < LAST_INSTANT - 400_000_000 {
        at += 399_999_937;
        let text = iso8601_utc(at);
        assert!(text > prev, "{text} did not follow {prev}");
        prev = text;
    }
}

#[test]
fn dates_reach_as_far_as_days_can_be_counted() {
    assert_eq!(civil_from_days(0), (1970, 1, 1));
    assert_eq!(civil_from_days(-1), (1969, 12, 31));
    assert_eq!(civil_from_days(i64::MIN), (-25_252_734_927_764_585, 6, 7));
    assert_eq!(
        civil_from_days(i64::MAX - 719_468),
        (25_252_734_927_766_554, 9, 25)
    );
}
