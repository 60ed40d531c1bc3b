use afterglow::badge::{
    card, commas, coord, delta, gain_phrase, not_tracked_card, not_tracked_pill, percent, pill, proxy_avg, rate,
    xml_escape, BadgeState, Face, Fonts, Point, RepoBadge, Share, Theme, STAR,
};
use afterglow::cuts::{not_tracked_cut, peak_cut, pill_cut, Cut};
use afterglow::history::{history, not_tracked_history};

fn face() -> Face {
    Face {
        advances: vec![('0', 14_320), (',', 8_198), ('▲', 22_528), ('/', 10_239)],
        kerns: vec![(',', '0', -50)],
    }
}

fn fonts() -> Fonts {
    Fonts {
        verdana_11: face(),
        helvetica_bold_20: face(),
    }
}

const SPARK: [(i64, i64); 5] = [(0, 360), (970, 300), (1940, 210), (2910, 110), (3880, 50)];

fn measured(velocity: i64, ahead: u64, pool: u64) -> BadgeState {
    BadgeState::Measured {
        velocity,
        top_percent: Share { ahead, pool },
    }
}

fn points(list: &[(i64, i64)]) -> Vec<Point> {
    list.iter().map(|&(x, y)| Point { x, y }).collect()
}

fn caveman(state: BadgeState) -> RepoBadge {
    RepoBadge {
        full_name: "JuliusBrussee/caveman".to_string(),
        stars: 94_590,
        tracked_since: "2026-07-30".to_string(),
        state,
        spark: points(&SPARK),
    }
}

fn pill_text(b: &RepoBadge) -> String {
    pill(b, &fonts())
}

fn card_text(b: &RepoBadge, theme: Theme) -> String {
    card(b, theme, &fonts())
}

#[test]
fn percentiles_keep_a_decimal_under_one() {
    let of = |ahead: u64, pool: u64| percent(Share { ahead, pool });
    assert_eq!(of(4, 10_000), "0.1");
    assert_eq!(of(0, 1), "0.1");
    assert_eq!(of(4, 1_000), "0.4");
    assert_eq!(of(94, 10_000), "0.9");
    assert_eq!(of(95, 10_000), "1");
    assert_eq!(of(1, 100), "1");
    assert_eq!(of(14, 1_000), "1");
    assert_eq!(of(12, 100), "12");
    assert_eq!(of(125, 1_000), "12");
    assert_eq!(of(135, 1_000), "14");
    assert_eq!(of(1, 1), "100");
}

#[test]
fn thousands_are_separated() {
    assert_eq!(commas(0), "0");
    assert_eq!(commas(7), "7");
    assert_eq!(commas(999), "999");
    assert_eq!(commas(1_000), "1,000");
    assert_eq!(commas(94_590), "94,590");
    assert_eq!(commas(1_234_567), "1,234,567");
    assert_eq!(commas(-1_500), "-1,500");
    assert_eq!(commas(1_000_007), "1,000,007");
    assert_eq!(commas(i64::MIN), "-9,223,372,036,854,775,808");
}

#[test]
fn falling_velocity_flips_the_glyph_but_keeps_the_amber() {
    let svg = pill_text(&caveman(measured(-1_042, 4, 1_000)));
    assert!(svg.contains(">▼ 1,042/day<"), "{svg}");
    assert!(svg.contains(r##"fill="#d4a72c""##), "{svg}");
    assert!(
        svg.contains(r#"aria-label="afterglow: 94,590 stars, losing 1,042 per day""#),
        "{svg}"
    );

    let svg = card_text(&caveman(measured(-1_042, 12, 100)), Theme::Light);
    assert!(svg.contains(">▼ 1,042/day<"), "{svg}");
    // A decline is a plain foreground fact: no green, and no degraded grey.
    assert!(
        svg.contains(r##"font-weight="600" fill="#1f2328">▼ 1,042/day"##),
        "{svg}"
    );
    assert!(!svg.contains(r##"fill="#1a7f37""##), "{svg}");
    assert!(
        svg.contains("top 12% velocity · all tracked repos"),
        "{svg}"
    );
    assert!(
        svg.contains(
            "afterglow: JuliusBrussee/caveman — 94,590 stars, losing 1,042 per day, top 12% velocity"
        ),
        "{svg}"
    );
}

#[test]
fn flat_velocity_still_reads_as_measured() {
    let svg = pill_text(&caveman(measured(0, 50, 100)));
    assert!(svg.contains(">▲ 0/day<"), "{svg}");
    assert!(svg.contains("gaining 0 per day"), "{svg}");
    assert!(svg.contains(r##"fill="#d4a72c""##), "{svg}");
}

#[test]
fn paused_and_not_tracked_carry_their_wording() {
    let svg = pill_text(&caveman(BadgeState::Paused));
    assert!(svg.contains(">tracking paused<"), "{svg}");
    assert!(
        svg.contains("afterglow: 94,590 stars, tracking paused"),
        "{svg}"
    );

    let svg = card_text(&caveman(BadgeState::Paused), Theme::Dark);
    assert!(svg.contains(">tracking paused<"), "{svg}");
    assert!(svg.contains("stroke-dasharray"), "{svg}");
    assert!(svg.contains(">tracked since 2026-07-30<"), "{svg}");

    let svg = not_tracked_pill("JuliusBrussee/caveman", &fonts());
    assert!(svg.contains(">afterglow<"), "{svg}");
    assert!(svg.contains(">not tracked<"), "{svg}");
    assert!(svg.contains(r##"fill="#9f9f9f""##), "{svg}");
    assert!(
        svg.contains("afterglow: JuliusBrussee/caveman is not tracked"),
        "{svg}"
    );

    let svg = not_tracked_card("JuliusBrussee/caveman", Theme::Light);
    assert!(
        svg.contains(
            r##"<text x="16" y="56" font-size="13" font-weight="400" fill="#59636e">not tracked</text>"##
        ),
        "{svg}"
    );
    assert!(
        svg.contains(r##"y="27" font-size="13" font-weight="600" fill="#59636e""##),
        "{svg}"
    );
    assert!(!svg.contains("#0969da"), "{svg}");
    assert!(!svg.contains(STAR), "{svg}");
    assert!(svg.contains("stroke-dasharray"), "{svg}");
    assert!(svg.contains(r##"<text x="404" y="140" font-size="10.5" text-anchor="end" fill="#59636e">afterglow</text>"##), "{svg}");
}

#[test]
fn hostile_names_are_escaped() {
    let hostile = r#"a&b<c>"d'/e"#;
    for svg in [
        card_text(
            &RepoBadge {
                full_name: hostile.to_string(),
                stars: 1,
                tracked_since: "2026-07-30".to_string(),
                state: BadgeState::Measuring,
                spark: Vec::new(),
            },
            Theme::Light,
        ),
        not_tracked_card(hostile, Theme::Dark),
        not_tracked_pill(hostile, &fonts()),
    ] {
        assert!(svg.contains("a&amp;b&lt;c&gt;&quot;d&apos;/e"), "{svg}");
        assert!(!svg.contains("<c>"), "{svg}");
        assert!(!svg.contains(hostile), "{svg}");
    }
}

#[test]
fn spark_coordinates_drop_whole_decimals_and_close_under_the_curve() {
    let svg = card_text(
        &RepoBadge {
            spark: points(&[(0, 355), (100, 360), (244, 200)]),
            ..caveman(measured(807, 4, 1_000))
        },
        Theme::Light,
    );
    assert!(
        svg.contains(r#"<polyline points="16,117.5 26,118 40.4,102""#),
        "{svg}"
    );
    assert!(
        svg.contains(r#"<path d="M16,117.5 L26,118 L40.4,102 L40.4,122 L16,122 Z""#),
        "{svg}"
    );

    // A measured repo with no series yet still gets the honest void, not a broken path.
    let svg = card_text(
        &RepoBadge {
            spark: Vec::new(),
            ..caveman(measured(807, 4, 1_000))
        },
        Theme::Light,
    );
    assert!(svg.contains("stroke-dasharray"), "{svg}");
    assert!(!svg.contains("polyline"), "{svg}");
}

#[test]
fn only_a_measured_pill_wears_amber() {
    for state in [
        BadgeState::Proxy { avg: 2_217 },
        BadgeState::Measuring,
        BadgeState::Enrolled,
        BadgeState::Paused,
    ] {
        let svg = pill_text(&caveman(state));
        assert!(!svg.contains("#d4a72c"), "{svg}");
        assert!(svg.contains("#9f9f9f"), "{svg}");
    }
    assert!(pill_text(&caveman(measured(1, 1, 1))).contains("#d4a72c"));
}

#[test]
fn only_a_measured_card_draws_a_line() {
    for state in [
        BadgeState::Proxy { avg: 2_217 },
        BadgeState::Measuring,
        BadgeState::Enrolled,
        BadgeState::Paused,
    ] {
        for theme in [Theme::Light, Theme::Dark] {
            let svg = card_text(&caveman(state), theme);
            assert!(!svg.contains("polyline"), "{svg}");
        }
    }
    assert!(card_text(&caveman(measured(1, 1, 1)), Theme::Dark).contains("polyline"));
}

#[test]
fn every_state_has_its_own_words() {
    for (state, pill_words, card_words) in [
        (measured(807, 4, 1_000), "▲ 807/day", "top 0.4% velocity"),
        (BadgeState::Proxy { avg: 2_217 }, "~2,217 avg", "~2,217 avg"),
        (
            BadgeState::Measuring,
            "measuring · first reading tomorrow",
            "measuring",
        ),
        (BadgeState::Enrolled, "tracking started", "tracking started"),
        (BadgeState::Paused, "tracking paused", "tracking paused"),
    ] {
        let b = caveman(state);
        assert!(pill_text(&b).contains(pill_words), "{}", pill_text(&b));
        assert!(
            card_text(&b, Theme::Light).contains(card_words),
            "{}",
            card_text(&b, Theme::Light)
        );
    }
}

#[test]
fn a_pill_is_as_wide_as_its_two_texts() {
    let svg = pill_text(&RepoBadge {
        stars: 0,
        ..caveman(BadgeState::Paused)
    });
    // One character of 14320 units (about 6.99 pixels) plus 25 on the label's side, and
    // fifteen of them plus 10 on the other, each to a tenth.
    assert!(svg.contains(r#"<svg xmlns="http://www.w3.org/2000/svg" width="146.9" height="20""#), "{svg}");
}

#[test]
fn numbers_are_written_one_way() {
    assert_eq!(rate(1_042), "1,042/day");
    assert_eq!(rate(-1_042), "1,042/day");
    assert_eq!(delta(-5), "▼ 5/day");
    assert_eq!(gain_phrase(12), "gaining 12 per day");
    assert_eq!(gain_phrase(-12), "losing 12 per day");
    assert_eq!(proxy_avg(2_217), "~2,217 avg");
    assert_eq!(rate(i64::MIN), "9,223,372,036,854,775,807/day");
    assert_eq!(coord(1175), "117.5");
    assert_eq!(coord(1180), "118");
    assert_eq!(coord(-5), "-0.5");
    assert_eq!(coord(0), "0");
}

#[test]
fn escaping_leaves_plain_text_alone() {
    assert_eq!(xml_escape("owner/re-po_1.x"), "owner/re-po_1.x");
    assert_eq!(xml_escape(r#"<a href="x">'&'</a>"#), "&lt;a href=&quot;x&quot;&gt;&apos;&amp;&apos;&lt;/a&gt;");
    assert_eq!(xml_escape(""), "");
}

#[test]
fn a_badge_about_nobody_has_no_hole_in_its_sentence() {
    for svg in [
        not_tracked_pill("", &fonts()),
        not_tracked_card("", Theme::Light),
    ] {
        assert!(svg.contains(r#"aria-label="afterglow: not tracked""#), "{svg}");
    }
}

#[test]
fn a_count_without_its_commas_is_the_number() {
    for n in [0, 7, 999, 1_000, 1_001, 12_345, 1_000_000, -1, -1_234, i64::MAX, i64::MIN] {
        assert_eq!(commas(n).replace(',', ""), n.to_string());
    }
    assert_eq!(commas(1_002_003), "1,002,003");
}

#[test]
fn an_escaped_text_reads_back_and_escapes_piece_by_piece() {
    let read = |s: &str| {
        s.replace("&lt;", "<")
            .replace("&gt;", ">")
            .replace("&quot;", "\"")
            .replace("&apos;", "'")
            .replace("&amp;", "&")
    };
    for (a, b) in [("<a>&b", "\"c'"), ("&lt;", "plain"), ("", "&amp;"), ("&", "lt;")] {
        let whole = format!("{a}{b}");
        assert_eq!(xml_escape(&whole), xml_escape(a) + &xml_escape(b));
        assert_eq!(read(&xml_escape(&whole)), whole);
    }
}

#[test]
fn an_unmeasured_card_ignores_the_points_it_carries() {
    for state in [
        BadgeState::Proxy { avg: 30 },
        BadgeState::Measuring,
        BadgeState::Enrolled,
        BadgeState::Paused,
    ] {
        let with = caveman(state);
        let without = RepoBadge {
            spark: Vec::new(),
            ..caveman(state)
        };
        for theme in [Theme::Light, Theme::Dark] {
            let svg = card_text(&with, theme);
            assert_eq!(svg, card_text(&without, theme));
            assert!(svg.contains("stroke-dasharray"), "{svg}");
            assert!(!svg.contains("<polyline") && !svg.contains("<linearGradient"), "{svg}");
            let square = history(&with, &points(&SPARK), theme, &fonts());
            assert!(square.contains("stroke-dasharray"), "{square}");
            assert!(!square.contains("<polyline") && !square.contains("<linearGradient"), "{square}");
        }
    }
}

#[test]
fn the_flat_cut_is_the_pill_and_the_others_say_the_same() {
    let b = caveman(measured(2_314, 4, 1_000));
    let flat = pill_cut(&b, Cut::Flat, &fonts());
    assert_eq!(flat, pill_text(&b));
    assert_eq!(not_tracked_cut("o/r", Cut::Flat, &fonts()), not_tracked_pill("o/r", &fonts()));
    for cut in [Cut::FlatSquare, Cut::ForTheBadge, Cut::Social] {
        let svg = pill_cut(&b, cut, &fonts());
        assert_ne!(svg, flat);
        for said in [
            "aria-label=\"afterglow: 94,590 stars, gaining 2,314 per day\"",
            "<title>afterglow: 94,590 stars, gaining 2,314 per day</title>",
            ">94,590<",
            ">▲ 2,314/day<",
            "\"#d4a72c\"",
        ] {
            assert!(svg.contains(said) && flat.contains(said), "{said}: {svg}");
        }
        // Amber is for measurements alone.
        assert!(!pill_cut(&caveman(BadgeState::Paused), cut, &fonts()).contains("#d4a72c"));
        assert!(not_tracked_cut("o/r", cut, &fonts()).contains("not tracked"));
    }
    assert!(pill_cut(&b, Cut::FlatSquare, &fonts()).contains(r#"shape-rendering="crispEdges""#));
    assert!(pill_cut(&b, Cut::ForTheBadge, &fonts()).contains(r#"height="28""#));
    assert!(pill_cut(&b, Cut::Social, &fonts()).contains("#fafafa"));
}

#[test]
fn a_cut_is_as_wide_as_its_texts() {
    let narrow = Fonts {
        verdana_11: Face {
            advances: vec![('0', 2_048)],
            kerns: vec![],
        },
        helvetica_bold_20: face(),
    };
    // Every character is a pixel wide: one of count and fifteen of value.
    let b = RepoBadge {
        stars: 7,
        ..caveman(BadgeState::Paused)
    };
    for (cut, width, label, value) in [
        (Cut::Flat, "51.0", "205", "385"),
        (Cut::FlatSquare, "51.0", "205", "385"),
        (Cut::ForTheBadge, "68.0", "255", "515"),
        (Cut::Social, "59.0", "205", "455"),
    ] {
        let svg = pill_cut(&b, cut, &narrow);
        assert!(svg.contains(&format!(r#"width="{width}" height"#)), "{svg}");
        assert!(svg.contains(&format!(r#"x="{label}""#)), "{svg}");
        assert!(svg.contains(&format!(r#"x="{value}""#)), "{svg}");
    }
}

#[test]
fn a_peak_is_printed_with_its_date() {
    let b = caveman(BadgeState::Paused);
    let peak = Some((1_200, "2026-07-30".to_string()));
    let svg = peak_cut(&b, &peak, Cut::Flat, &fonts());
    assert!(svg.contains(">peak ▲ 1,200/day · 2026-07-30<"), "{svg}");
    assert!(svg.contains("afterglow: 94,590 stars, peak gaining 1,200 per day on 2026-07-30"), "{svg}");
    assert!(svg.contains("#d4a72c"), "{svg}");
    assert_eq!(peak_cut(&b, &None, Cut::Social, &fonts()), pill_cut(&b, Cut::Social, &fonts()));
}

#[test]
fn a_history_is_a_square_with_the_cards_numbers() {
    let b = caveman(measured(2_314, 4, 1_000));
    let svg = history(&b, &points(&[(0, 2960), (3880, 40)]), Theme::Light, &fonts());
    assert!(svg.contains(r#"width="420" height="420""#), "{svg}");
    assert!(svg.contains(r#"<polyline points="16,386 404,94""#), "{svg}");
    assert!(svg.contains("M16,386 L404,94 L404,390 L16,390 Z"), "{svg}");
    assert!(svg.contains("all readings · tracked since 2026-07-30"), "{svg}");
    let card = card_text(&b, Theme::Light);
    for said in [">94,590<", ">▲ 2,314/day<", "top 0.4% velocity · all tracked repos", ">JuliusBrussee/caveman<"] {
        assert!(svg.contains(said) && card.contains(said), "{said}: {svg}");
    }
    // Too few days for a line are a void.
    let empty = history(&b, &Vec::new(), Theme::Light, &fonts());
    assert!(empty.contains("stroke-dasharray") && !empty.contains("<polyline"), "{empty}");
    assert!(not_tracked_history("o/r", Theme::Dark).contains("#0d1117"));
}
