//! Requests against a store of plain rows and a GitHub that answers from a list.

use std::collections::VecDeque;

use afterglow::badge::{Face, Fonts, Point, RepoBadge, Theme};
use afterglow::board::{
    board, percentile, recent_series, recent_since, sorted_board, spark_since, Board, BoardRow, FleetReading, Series,
    Sort,
};
use afterglow::cuts::Cut;
use afterglow::github::Repo;
use afterglow::names::first_repo;
use afterglow::serve::{
    cache_control, canonical_name, enroll, enroll_start, max_age_for, needs_all, needs_fleet, render, resolve, resolve_start,
    secure, shape_of, sort_of, theme_of, Answer, Budgets, EnrollEvent, Enrolling, Enrollment, Held, Lane, Lookup,
    Outcome, Portrait, ResolveEvent, Resolving, Shape, Status, Submission, SubmitEvent, Submitting, TrackedRepo, APRIL_2025_URL,
    EMBED_DAILY_BUDGET, FONT_URL, HTML_TYPE, MANUAL_DAILY_BUDGET, SVG_TYPE, TEXT_TYPE,
};
use afterglow::site::{board_row, enrolled, index, rankings, stamp};
use afterglow::time::{date_utc, iso8601_utc, parse_iso8601_utc};
use afterglow::velocity::{card_spark, spark_points, velocity_cutoff, Reading};

const HOUR: i64 = 3_600;

struct Row {
    id: i64,
    name: String,
    status: String,
    lane: String,
    enrolled_at: String,
    created_at: Option<String>,
    language: Option<String>,
}

struct World {
    repos: Vec<Row>,
    snapshots: Vec<(i64, String, i64)>,
    subscribers: Vec<(i64, Option<i64>)>,
    queue: Vec<(String, String)>,
    budgets: Budgets,
    /// What GitHub says, one answer a call; `None` is a 404, and past the end it is out.
    answers: VecDeque<Option<Repo>>,
    calls: usize,
    now: i64,
}

fn world(answers: Vec<Option<Repo>>) -> World {
    World {
        repos: Vec::new(),
        snapshots: Vec::new(),
        subscribers: Vec::new(),
        queue: Vec::new(),
        budgets: Budgets::fresh(),
        answers: answers.into(),
        calls: 0,
        now: parse_iso8601_utc("2026-07-31T12:00:00Z").unwrap(),
    }
}

fn github_repo(id: i64, full_name: &str, stars: i64, created_at: &str) -> Repo {
    Repo {
        id,
        full_name: full_name.to_string(),
        created_at: created_at.to_string(),
        stargazers_count: stars,
        forks_count: Some(3),
        open_issues_count: Some(4),
        subscribers_count: Some(5),
        pushed_at: Some(created_at.to_string()),
        language: Some("Rust".to_string()),
    }
}

fn fonts() -> Fonts {
    let face = || Face {
        advances: vec![('0', 14_320)],
        kerns: vec![],
    };
    Fonts {
        verdana_11: face(),
        helvetica_bold_20: face(),
    }
}

impl World {
    fn track(&mut self, id: i64, name: &str, enrolled_ago: i64, created_ago: Option<i64>) {
        self.track_full(id, name, enrolled_ago, created_ago, "active", "embed");
    }

    fn track_as(&mut self, id: i64, name: &str, enrolled_ago: i64, created_ago: Option<i64>, status: &str) {
        self.track_full(id, name, enrolled_ago, created_ago, status, "embed");
    }

    fn track_lane(&mut self, id: i64, name: &str, lane: &str) {
        self.track_full(id, name, 24 * 30, None, "active", lane);
    }

    fn track_full(
        &mut self,
        id: i64,
        name: &str,
        enrolled_ago: i64,
        created_ago: Option<i64>,
        status: &str,
        lane: &str,
    ) {
        self.repos.push(Row {
            id,
            name: name.to_string(),
            status: status.to_string(),
            lane: lane.to_string(),
            enrolled_at: iso8601_utc(self.now - enrolled_ago * HOUR),
            created_at: created_ago.map(|h| iso8601_utc(self.now - h * HOUR)),
            language: None,
        });
    }

    fn snapshot(&mut self, id: i64, ago: i64, stars: i64) {
        self.snapshot_at(id, &iso8601_utc(self.now - ago * HOUR), stars);
    }

    fn snapshot_at(&mut self, id: i64, ts: &str, stars: i64) {
        self.snapshots.push((id, ts.to_string(), stars));
    }

    fn readings(&self, id: i64) -> Vec<Reading> {
        let mut list: Vec<Reading> = self
            .snapshots
            .iter()
            .filter(|s| s.0 == id)
            .map(|s| Reading {
                ts: s.1.clone(),
                stars: s.2,
            })
            .collect();
        list.sort_by(|a, b| a.ts.cmp(&b.ts));
        list
    }

    fn fleet(&self) -> Vec<Series> {
        let since = recent_since(self.now);
        let mut repos: Vec<&Row> = self.repos.iter().filter(|r| r.status == "active").collect();
        repos.sort_by_key(|r| r.id);
        let mut rows = Vec::new();
        for repo in repos {
            for reading in self.readings(repo.id) {
                if reading.ts >= since {
                    rows.push(FleetReading {
                        id: repo.id,
                        full_name: repo.name.clone(),
                        created_at: repo.created_at.clone(),
                        language: repo.language.clone(),
                        lane: repo.lane.clone(),
                        reading,
                    });
                }
            }
        }
        recent_series(rows)
    }

    fn recent(&self, id: i64) -> Vec<Reading> {
        let since = spark_since(self.now);
        let mut list = self.readings(id);
        list.retain(|r| r.ts >= since);
        list
    }

    fn lookup(&self, full_name: &str) -> Lookup {
        match self
            .repos
            .iter()
            .find(|r| r.name.eq_ignore_ascii_case(full_name))
        {
            Some(r) => Lookup::Found(TrackedRepo {
                id: r.id,
                full_name: r.name.clone(),
                status: Status::read(&r.status),
                enrolled_at: r.enrolled_at.clone(),
                created_at: r.created_at.clone(),
            }),
            None => Lookup::Absent,
        }
    }

    fn gather(&self, repo: &TrackedRepo, shape: Shape) -> Held {
        let readings = self.readings(repo.id);
        let latest = readings.last();
        let prior = latest
            .and_then(velocity_cutoff)
            .and_then(|cutoff| readings.iter().rev().find(|r| r.ts <= cutoff));
        let (series, recent) = if needs_fleet(repo, latest, prior) {
            (self.fleet(), self.recent(repo.id))
        } else {
            (Vec::new(), Vec::new())
        };
        Held {
            latest: latest.cloned(),
            prior: prior.cloned(),
            series,
            recent,
            all: if needs_all(shape) { Some(readings.clone()) } else { None },
        }
    }

    fn enroll(&mut self, lane: Lane, full_name: &str, asked: &Enrolling) -> EnrollEvent {
        match asked {
            Enrolling::Asking => {
                self.calls += 1;
                EnrollEvent::Answered(match self.answers.pop_front() {
                    Some(Some(repo)) => Answer::Found(repo),
                    Some(None) => Answer::Missing,
                    None => Answer::Unreachable,
                })
            }
            Enrolling::Checking(repo) => EnrollEvent::OptedOut(Some(
                self.repos
                    .iter()
                    .any(|r| r.id == repo.id && r.status == "opted_out"),
            )),
            Enrolling::Recording(repo) => {
                let ts = iso8601_utc(self.now);
                self.repos.push(Row {
                    id: repo.id,
                    name: repo.full_name.clone(),
                    status: "active".to_string(),
                    lane: lane.name().to_string(),
                    enrolled_at: ts.clone(),
                    created_at: Some(repo.created_at.clone()),
                    language: repo.language.clone(),
                });
                self.snapshots.push((repo.id, ts, repo.stargazers_count));
                self.subscribers.push((repo.id, repo.subscribers_count));
                EnrollEvent::Recorded(true)
            }
            Enrolling::Parking => {
                if !self.queue.iter().any(|(name, _)| name == full_name) {
                    self.queue
                        .push((full_name.to_string(), lane.name().to_string()));
                }
                EnrollEvent::Parked
            }
            Enrolling::Done(_) => panic!("an enrollment that is over asks for nothing"),
        }
    }

    fn spend(&mut self, lane: Lane) -> bool {
        let today = date_utc(self.now);
        self.budgets.spend_enrollment(lane, &today)
    }

    fn resolve(&mut self, name: &str) -> Option<RepoBadge> {
        self.portrait(name, Shape::Pill(Cut::Flat)).map(|p| p.badge)
    }

    fn portrait(&mut self, name: &str, shape: Shape) -> Option<Portrait> {
        let mut step = resolve_start(name);
        loop {
            let event = match &step {
                Resolving::LookingUp => ResolveEvent::LookedUp(self.lookup(name)),
                Resolving::Gathering(repo) => {
                    ResolveEvent::Gathered(Some(self.gather(repo, shape)))
                },
                Resolving::Spending => ResolveEvent::Spent(self.spend(Lane::Embed)),
                Resolving::Enrolling(asked) => {
                    ResolveEvent::Enrolled(self.enroll(Lane::Embed, name, asked))
                }
                Resolving::Done(portrait) => return portrait.clone(),
            };
            step = resolve(step, event, self.now);
        }
    }

    /// The image and how long it may be kept.
    fn draw(&mut self, name: &str, shape: Shape) -> (String, String) {
        let portrait = self.portrait(name, shape);
        let (svg, max_age) = render(name, &portrait, shape, &fonts());
        (svg, cache_control(max_age))
    }

    fn pill(&mut self, name: &str) -> String {
        self.draw(name, Shape::Pill(Cut::Flat)).0
    }

    fn card(&mut self, name: &str) -> String {
        self.draw(name, shape_of(Some("card"), None, None)).0
    }

    fn compat(&mut self, repos: Option<&str>, theme: Option<&str>) -> String {
        self.draw(&first_repo(repos), Shape::Card(theme_of(theme))).0
    }

    fn board(&self) -> Board {
        board(&self.fleet(), self.now)
    }

    fn index(&self) -> String {
        index(&self.board())
    }

    fn rankings(&self, sort: Option<&str>) -> String {
        let sort = sort_of(sort);
        let colors = vec![
            ("C".to_string(), "#555555".to_string()),
            ("Rust".to_string(), "#dea584".to_string()),
        ];
        rankings(&sorted_board(self.board(), sort), sort, &colors)
    }

    fn submit(&mut self, raw: &str) -> Outcome {
        let mut submission = Submission::start(raw);
        loop {
            let name = submission.full_name.clone();
            let event = match &submission.step {
                Submitting::LookingUp => SubmitEvent::LookedUp(self.lookup(&name)),
                Submitting::Spending => SubmitEvent::Spent(self.spend(Lane::Manual)),
                Submitting::Enrolling(asked) => {
                    SubmitEvent::Enrolled(self.enroll(Lane::Manual, &name, asked))
                }
                Submitting::Done(outcome) => return outcome.clone(),
            };
            submission = submission.submit(event, self.now);
        }
    }

    fn queued(&self) -> Vec<&str> {
        self.queue.iter().map(|(name, _)| name.as_str()).collect()
    }
}

/// A repo with a day-old reading behind its latest one, so it measures.
fn measured(w: &mut World, id: i64, name: &str) {
    w.track(id, name, 24 * 30, None);
    w.snapshot(id, 25, 1_000);
    w.snapshot(id, 1, 1_100);
}

fn names(board: &Board) -> Vec<&str> {
    board.rows.iter().map(|r| r.full_name.as_str()).collect()
}

/// The column headers on their own. The nav links to `/rankings` too, and a
/// test about the head strip must not be answered by the masthead.
fn head_strip(page: &str) -> &str {
    page.split(r#"<div class="row head">"#)
        .nth(1)
        .and_then(|rest| rest.split("</div>").next())
        .unwrap_or_else(|| panic!("the board prints a head strip"))
}

/// One repo's row, wherever the page put it.
fn row_of<'a>(page: &'a str, name: &str) -> &'a str {
    page.split(r#"<li class="row">"#)
        .filter_map(|piece| piece.split("</li>").next())
        .find(|row| row.contains(&format!(">{name}</a>")))
        .unwrap_or_else(|| panic!("the board prints a row for {name}"))
}

/// The number the percentile cell shows, stopping at the sr-only span that
/// says what it is a percentile of.
fn percentile_of_row(page: &str, name: &str) -> String {
    row_of(page, name)
        .split("top ")
        .nth(1)
        .and_then(|rest| rest.split('<').next())
        .unwrap_or_else(|| panic!("{name} states a percentile"))
        .to_string()
}

/// The percentile that a card states.
fn percentile_on(card: &str) -> &str {
    card.split("top ")
        .nth(1)
        .and_then(|rest| rest.split(" velocity").next())
        .unwrap_or_else(|| panic!("the card states a percentile"))
}

#[test]
fn style_defaults_to_the_pill_and_theme_only_moves_the_card() {
    let mut w = world(vec![]);
    measured(&mut w, 1, "o/r");
    let name = canonical_name("o", "r");

    let (pill, cache) = w.draw(&name, shape_of(None, None, None));
    assert_eq!(SVG_TYPE, "image/svg+xml; charset=utf-8");
    assert_eq!(cache, "public, max-age=3600");
    assert!(pill.contains(r#"height="20""#), "{pill}");
    assert!(pill.contains("▲ 100/day"), "{pill}");

    // The pill is theme-invariant: one render everywhere.
    assert_eq!(w.draw(&name, shape_of(None, None, Some("dark"))).0, pill);

    let card = w.draw(&name, shape_of(Some("card"), None, None)).0;
    assert!(card.contains(r#"width="420" height="150""#), "{card}");
    assert!(card.contains("#ffffff"), "{card}");
    assert!(card.contains("% velocity"), "{card}");

    let dark = w.draw(&name, shape_of(Some("card"), None, Some("dark"))).0;
    assert!(dark.contains("#0d1117"), "{dark}");

    // Unknown style, unknown params, junk theme: still the default pill.
    assert_eq!(w.draw(&name, shape_of(Some("poster"), None, Some("neon"))).0, pill);
    assert_eq!(w.calls, 0);
}

#[test]
fn a_style_picks_the_cut_and_a_metric_picks_the_number() {
    assert_eq!(shape_of(None, None, None), Shape::Pill(Cut::Flat));
    assert_eq!(shape_of(Some("flat-square"), None, None), Shape::Pill(Cut::FlatSquare));
    assert_eq!(shape_of(Some("for-the-badge"), None, None), Shape::Pill(Cut::ForTheBadge));
    assert_eq!(shape_of(Some("social"), None, Some("dark")), Shape::Pill(Cut::Social));
    assert_eq!(shape_of(None, Some("peak"), None), Shape::Peak(Cut::Flat));
    assert_eq!(shape_of(Some("social"), Some("peak"), None), Shape::Peak(Cut::Social));
    assert_eq!(shape_of(None, Some("rate"), None), Shape::Pill(Cut::Flat));
    assert_eq!(shape_of(Some("card"), Some("peak"), Some("dark")), Shape::Card(Theme::Dark));
    assert_eq!(shape_of(Some("history"), Some("peak"), None), Shape::History(Theme::Light));
    assert!(needs_all(Shape::Peak(Cut::Flat)) && needs_all(Shape::History(Theme::Dark)));
    assert!(!needs_all(Shape::Pill(Cut::Social)) && !needs_all(Shape::Card(Theme::Light)));
}

#[test]
fn every_shape_of_a_repo_is_its_own_image() {
    let mut w = world(vec![]);
    measured(&mut w, 1, "o/r");
    let mut images = Vec::new();
    for (style, metric, theme) in [
        (None, None, None),
        (Some("flat-square"), None, None),
        (Some("for-the-badge"), None, None),
        (Some("social"), None, None),
        (None, Some("peak"), None),
        (Some("social"), Some("peak"), None),
        (Some("card"), None, None),
        (Some("card"), None, Some("dark")),
        (Some("history"), None, None),
        (Some("history"), None, Some("dark")),
    ] {
        let (svg, cache) = w.draw("o/r", shape_of(style, metric, theme));
        assert_eq!(cache, "public, max-age=3600");
        assert!(!images.contains(&svg), "{svg}");
        images.push(svg);
    }
    // What a repo is called by is said in every one of them.
    for svg in &images {
        assert!(aria_of(svg).starts_with("afterglow: "), "{svg}");
        assert!(svg.contains("1,100"), "{svg}");
    }
    assert_eq!(w.calls, 0);
}

#[test]
fn the_peak_is_the_highest_day_with_its_date() {
    let mut w = world(vec![]);
    w.track(1, "o/r", 24 * 30, None);
    for (day, stars) in [(1, 100), (2, 400), (3, 410), (4, 380)] {
        w.snapshot_at(1, &format!("2026-07-2{day}T00:00:00Z"), stars);
    }
    let peak = shape_of(None, Some("peak"), None);
    let (svg, _) = w.draw("o/r", peak);
    assert!(svg.contains(">peak ▲ 300/day · 2026-07-22<"), "{svg}");
    assert!(svg.contains("#d4a72c"), "{svg}");
    assert_eq!(
        aria_of(&svg),
        "afterglow: 380 stars, peak gaining 300 per day on 2026-07-22"
    );
    // The pill itself prints the last day, which lost.
    assert!(w.pill("o/r").contains("▼ 30/day"));

    // It only goes up: a slower day leaves it, a faster one takes its place.
    w.snapshot_at(1, "2026-07-25T00:00:00Z", 500);
    assert!(w.draw("o/r", peak).0.contains("peak ▲ 300/day · 2026-07-22"));
    w.snapshot_at(1, "2026-07-26T00:00:00Z", 900);
    assert!(w.draw("o/r", peak).0.contains("peak ▲ 400/day · 2026-07-26"));

    // Without a measured day there is no peak, and the pill says what it always says.
    w.track(2, "o/young", 24, Some(24 * 10));
    w.snapshot(2, 1, 300);
    assert_eq!(w.draw("o/young", peak).0, w.pill("o/young"));
}

#[test]
fn the_history_draws_the_whole_series_under_the_cards_numbers() {
    let mut w = world(vec![]);
    w.track(1, "o/r", 24 * 400, None);
    w.snapshot(1, 24 * 365, 10);
    w.snapshot(1, 25, 1_000);
    w.snapshot(1, 1, 1_100);
    let (history, cache) = w.draw("o/r", shape_of(Some("history"), None, None));
    assert_eq!(cache, "public, max-age=3600");
    assert!(history.contains(r#"width="420" height="420""#), "{history}");
    assert!(history.contains("#ffffff"), "{history}");
    // From the first reading at the left edge to the last at the right one.
    let line = history
        .split(r#"<polyline points=""#)
        .nth(1)
        .and_then(|rest| rest.split('"').next())
        .unwrap();
    let ends: Vec<&str> = line.split(' ').collect();
    assert_eq!(ends.len(), 3);
    assert_eq!((ends[0], ends[2]), ("16,386", "404,94"));
    // The card draws the last 30 days of the same repo, and prints the same numbers.
    let card = w.card("o/r");
    assert_eq!(aria_of(&history), aria_of(&card));
    assert_eq!(percentile_on(&history), percentile_on(&card));
    assert!(history.contains("▲ 100/day") && card.contains("▲ 100/day"));
    assert!(w
        .draw("o/r", shape_of(Some("history"), None, Some("dark")))
        .0
        .contains("#0d1117"));

    // A repo that is not measured shows the void.
    w.track_as(2, "o/paused", 24 * 30, None, "inactive");
    w.snapshot(2, 72, 800);
    w.snapshot(2, 48, 900);
    let (paused, _) = w.draw("o/paused", shape_of(Some("history"), None, None));
    assert!(paused.contains("stroke-dasharray"), "{paused}");
    assert!(!paused.contains("<polyline") && !paused.contains("<linearGradient"), "{paused}");
    let (unknown, cache) = w.draw("o/unknown", shape_of(Some("history"), None, None));
    assert!(unknown.contains("not tracked") && unknown.contains("stroke-dasharray"), "{unknown}");
    assert_eq!(cache, "public, max-age=300");
}

#[test]
fn compat_svg_draws_the_first_repo_and_ignores_the_rest() {
    let mut w = world(vec![]);
    measured(&mut w, 1, "o/r");
    w.track(2, "other/repo", 24, None);
    w.snapshot(2, 1, 5);

    let got = w.compat(Some("o/r,other/repo"), None);
    assert!(got.contains(">o/r<"), "{got}");
    assert!(!got.contains("other/repo"), "{got}");
    // The compat URL always draws the card, whatever else it carries.
    assert!(got.contains(r#"width="420" height="150""#), "{got}");
    assert!(w.compat(Some("o/r"), Some("dark")).contains("#0d1117"));
}

#[test]
fn every_state_renders_with_its_own_cache_ttl() {
    let mut w = world(vec![]);

    measured(&mut w, 1, "o/measured");
    // Young repo, one reading: a labeled lifetime average.
    w.track(2, "o/young", 24, Some(24 * 10));
    w.snapshot(2, 1, 300);
    // Old repo, one reading: no number at all.
    w.track(3, "o/old", 24, Some(24 * 400));
    w.snapshot(3, 1, 5_000);
    // Two readings three hours apart are one day seen twice, not a delta.
    w.track(4, "o/twice", 24, Some(24 * 400));
    w.snapshot(4, 4, 5_000);
    w.snapshot(4, 1, 5_010);
    w.track(5, "o/fresh", 0, Some(24 * 400));
    // Gone from our vantage point: the series is kept, the badge says so.
    w.track_as(6, "o/paused", 24 * 30, None, "inactive");
    w.snapshot(6, 48, 900);

    for (name, marker, max_age) in [
        ("o/measured", "▲ 100/day", 3_600),
        ("o/young", "~30 avg", 3_600),
        ("o/old", "measuring · first reading tomorrow", 3_600),
        ("o/twice", "measuring · first reading tomorrow", 3_600),
        ("o/fresh", "tracking started", 300),
        ("o/paused", "tracking paused", 3_600),
        ("o/untracked", "not tracked", 300),
    ] {
        let (svg, cache) = w.draw(name, Shape::Pill(Cut::Flat));
        assert!(svg.contains(marker), "{name}: {svg}");
        assert_eq!(cache, format!("public, max-age={max_age}"), "{name}");
    }

    // Only a measured card carries a sparkline; the rest show the honest void.
    assert!(w.card("o/measured").contains("polyline"));
    assert!(w.card("o/old").contains("stroke-dasharray"));
}

#[test]
fn invalid_names_never_reach_github_or_the_store() {
    let mut w = world(vec![]);
    let long = "a".repeat(40);
    for (name, shape) in [
        ("o/r x".to_string(), Shape::Pill(Cut::Flat)),
        ("under_score/r".to_string(), Shape::Pill(Cut::Flat)),
        ("o/a$b".to_string(), Shape::Pill(Cut::Flat)),
        (format!("{long}/r"), Shape::Pill(Cut::Flat)),
        (first_repo(Some("notarepo")), shape_of(Some("card"), None, None)),
        (first_repo(Some("")), shape_of(Some("card"), None, None)),
    ] {
        let (svg, cache) = w.draw(&name, shape);
        assert!(svg.contains("not tracked"), "{name}: {svg}");
        assert_eq!(cache, "public, max-age=300", "{name}");
    }
    // Nothing was asked of GitHub, and nothing was written down.
    assert_eq!(w.calls, 0);
    assert!(w.queue.is_empty());
    assert!(w.repos.is_empty());
}

/// The sentence a badge speaks, which is also the one its `<title>` carries.
fn aria_of(svg: &str) -> &str {
    svg.split(r#"aria-label=""#)
        .nth(1)
        .and_then(|rest| rest.split('"').next())
        .unwrap_or_else(|| panic!("every badge states an aria-label"))
}

#[test]
fn an_untracked_name_prints_only_what_github_allows() {
    let mut w = world(vec![]);
    let card = shape_of(Some("card"), None, None);
    // U+202E reorders everything after it; U+0001 is a control byte a terminal
    // or a reader may do anything at all with.
    for (name, shape) in [
        ("o\u{202e}wner/repo", Shape::Pill(Cut::Flat)),
        ("o\u{202e}wner/repo", card),
        ("owner/re\u{1}po", card),
        ("o\u{202e}wner/re\u{1}po", card),
    ] {
        let svg = w.draw(name, shape).0;
        assert!(svg.contains("not tracked"), "{name}: {svg}");
        assert!(!svg.contains('\u{202e}'), "{name}: {svg}");
        assert!(!svg.contains('\u{1}'), "{name}: {svg}");
        // The aria-label and the title carry the same sentence, so both are
        // checked rather than trusting one to stand for the other.
        assert_eq!(aria_of(&svg), "afterglow: owner/repo is not tracked");
        assert!(
            svg.contains("<title>afterglow: owner/repo is not tracked</title>"),
            "{name}: {svg}"
        );
    }

    // A name that is only wrong prints exactly as it was asked for.
    let long = "a".repeat(40);
    let svg = w.pill(&format!("{long}/clim_dg.rs"));
    assert_eq!(
        aria_of(&svg),
        format!("afterglow: {long}/clim_dg.rs is not tracked")
    );
    assert_eq!(w.calls, 0);
    assert!(w.repos.is_empty());
}

#[test]
fn an_empty_repo_token_leaves_no_hole_in_the_badge() {
    let mut w = world(vec![]);
    measured(&mut w, 1, "o/r");

    // Nothing named at all: still a badge, and one without a gap in its line.
    for repos in ["", ",", " "] {
        let got = w.compat(Some(repos), None);
        assert!(got.contains("not tracked"), "{repos}: {got}");
        assert_eq!(aria_of(&got), "afterglow: not tracked", "{repos}");
        assert!(
            got.contains("<title>afterglow: not tracked</title>"),
            "{repos}: {got}"
        );
    }

    // An empty owner segment leaves no separator behind either.
    let got = w.pill(&canonical_name("", "climdg"));
    assert_eq!(aria_of(&got), "afterglow: climdg is not tracked");

    let got = w.compat(Some(",o/r"), None);
    assert!(got.contains(">o/r<"), "{got}");
    assert_eq!(w.calls, 0);
}

#[test]
fn a_first_request_enrolls_and_the_next_comes_from_the_store() {
    let mut w = world(vec![]);
    let created = iso8601_utc(w.now - 400 * 24 * HOUR);
    w.answers
        .push_back(Some(github_repo(42, "Owner/Repo", 1_234, &created)));

    let (first, cache) = w.draw("owner/repo", shape_of(Some("card"), None, None));
    assert_eq!(cache, "public, max-age=300");
    assert!(first.contains("tracking started"), "{first}");
    // The canonical name from the API, not the one in the URL.
    assert!(first.contains(">Owner/Repo<"), "{first}");
    assert_eq!(w.calls, 1);
    assert_eq!(w.repos.iter().filter(|r| r.lane == "embed").count(), 1);
    assert_eq!(w.snapshots, [(42, iso8601_utc(w.now), 1_234)]);
    assert_eq!(w.subscribers, [(42, Some(5))]);
    assert!(w.queue.is_empty());

    // GitHub has nothing left to say, so a second call would fail: the store
    // answers instead, and the lookup shrugs off the case of the URL.
    let second = w.pill("OWNER/REPO");
    assert!(second.contains("1,234"), "{second}");
    assert!(second.contains("tracking started"), "{second}");
    assert_eq!(w.calls, 1);
}

#[test]
fn an_exhausted_budget_queues_instead_of_enrolling() {
    let mut w = world(vec![Some(github_repo(
        42,
        "owner/repo",
        5,
        "2026-01-01T00:00:00Z",
    ))]);
    let today = date_utc(w.now);
    for _ in 0..EMBED_DAILY_BUDGET {
        assert!(w.budgets.spend_enrollment(Lane::Embed, &today));
    }
    assert!(!w.budgets.spend_enrollment(Lane::Embed, &today));
    // The lanes hold their own allowances; a busy README leaves the form alone.
    assert!(w.budgets.spend_enrollment(Lane::Manual, &today));

    let (got, cache) = w.draw("owner/repo", Shape::Pill(Cut::Flat));
    assert!(got.contains("not tracked"), "{got}");
    assert_eq!(cache, "public, max-age=300");
    assert_eq!(w.calls, 0);
    assert_eq!(w.queued(), ["owner/repo"]);
    assert!(w.repos.is_empty());

    // Asking twice does not queue it twice.
    w.pill("owner/repo");
    assert_eq!(w.queued(), ["owner/repo"]);

    // Tomorrow the budget is whole again.
    assert!(w.budgets.spend_enrollment(Lane::Embed, "2099-01-01"));
}

#[test]
fn a_repo_github_will_not_confirm_leaves_no_rows() {
    let mut w = world(vec![None]);
    let got = w.card("owner/repo");
    assert!(got.contains("not tracked"), "{got}");
    assert!(got.contains(">owner/repo<"), "{got}");
    assert_eq!(w.calls, 1);
    assert!(w.repos.is_empty());
    assert!(w.snapshots.is_empty());
    // A 404 is an answer, not an outage: nothing to come back to.
    assert!(w.queue.is_empty());
}

#[test]
fn a_github_outage_queues_the_repo_and_still_draws_a_badge() {
    let mut w = world(vec![]);
    let got = w.pill("owner/repo");
    assert!(got.contains("not tracked"), "{got}");
    assert_eq!(w.calls, 1);
    assert_eq!(w.queued(), ["owner/repo"]);
}

#[test]
fn every_response_carries_its_security_headers() {
    let header = |content_type: Option<&str>, name: &str| {
        secure(content_type)
            .iter()
            .find(|(k, _)| *k == name)
            .map_or("", |(_, v)| *v)
    };
    let rest = [
        Some(SVG_TYPE),
        Some("font/woff2"),
        Some("image/svg+xml"),
        Some("image/png"),
        Some(TEXT_TYPE),
        None,
    ];
    for kind in rest.iter().chain(&[Some(HTML_TYPE)]) {
        assert_eq!(header(*kind, "x-content-type-options"), "nosniff");
        assert_eq!(header(*kind, "referrer-policy"), "no-referrer");
        assert_eq!(
            header(*kind, "strict-transport-security"),
            "max-age=63072000; includeSubDomains"
        );
    }
    assert_eq!(
        header(Some(HTML_TYPE), "content-security-policy"),
        "default-src 'none'; img-src 'self'; style-src 'unsafe-inline'; \
         font-src 'self'; form-action 'self'; base-uri 'none'; frame-ancestors 'none'"
    );
    assert_eq!(header(Some(HTML_TYPE), "x-frame-options"), "DENY");
    for kind in rest {
        assert_eq!(header(kind, "content-security-policy"), "default-src 'none'");
        // Not on a badge: a README embeds it cross-origin as an image on purpose.
        assert_eq!(header(kind, "x-frame-options"), "");
    }
}

#[test]
fn a_row_prints_the_number_the_card_prints() {
    let mut w = world(vec![]);
    for (id, per_day) in [(1, 400), (2, 300), (3, 200), (4, 100)] {
        w.track(id, &format!("o/r{id}"), 24 * 30, None);
        w.snapshot(id, 24, 1_000);
        w.snapshot(id, 0, 1_000 + per_day);
    }

    let card = w.card("o/r2");
    let percentile = percentile_on(&card);
    assert_eq!(percentile, "50%");

    let board = w.rankings(None);
    // Byte for byte the card's percentile, from the same pool and the same
    // rounding, which is the whole reason the page exists.
    assert!(
        board.contains(&format!(
            r#"<span class="c-pct num">top {percentile}<span class="sr-only"> velocity</span></span>"#
        )),
        "{board}"
    );
    assert!(
        board.contains(r#"aria-hidden="true">▲ </span>300/day"#),
        "{board}"
    );
    // Ranked by the number, fastest first.
    let rank = |name: &str| board.find(name).unwrap();
    assert!(rank("o/r1") < rank("o/r2"));
    assert!(rank("o/r2") < rank("o/r3"));
    assert!(rank("o/r3") < rank("o/r4"));
    // A measured row earns its gold: minispark, and the fade under it.
    assert!(board.contains(r##"fill="url(#glow)""##), "{board}");
    assert_eq!(w.calls, 0);
}

#[test]
fn a_slow_repo_is_on_the_board_to_be_checked_against() {
    let mut w = world(vec![]);
    // More repos than the board ever used to print.
    for id in 1..=130 {
        w.track(id, &format!("o/r{id:03}"), 24 * 30, None);
        w.snapshot(id, 24, 1_000);
        w.snapshot(id, 0, 1_000 + (131 - id));
    }

    // Rank 110 of 130, nowhere near a leaderboard, and its card still claims a
    // percentile that has to be checkable somewhere.
    let card = w.card("o/r110");
    let percentile = percentile_on(&card);
    assert_eq!(percentile, "85%");

    let board = w.rankings(None);
    let row = board
        .split(">o/r110</a>")
        .nth(1)
        .and_then(|rest| rest.split("c-repo").next())
        .unwrap();
    assert!(
        row.contains(&format!(
            r#"top {percentile}<span class="sr-only"> velocity</span>"#
        )),
        "{row}"
    );
    // The slowest repo of all is down there too.
    assert!(board.contains(">o/r130</a>"), "{board}");
    assert_eq!(w.calls, 0);
}

#[test]
fn the_board_floor_hides_scan_repos_but_not_their_pool_weight() {
    let mut w = world(vec![]);
    // A scan repo above the floor: on the board.
    w.track_lane(1, "big/scan", "scan");
    w.snapshot(1, 24, 2_500);
    w.snapshot(1, 0, 2_600);
    // A scan repo under the floor, faster than everything: pool only.
    w.track_lane(2, "small/rocket", "scan");
    w.snapshot(2, 24, 500);
    w.snapshot(2, 0, 900);
    // An embed repo under the floor: somebody asked, so it has a row.
    w.track_lane(3, "small/asked", "embed");
    w.snapshot(3, 24, 100);
    w.snapshot(3, 0, 150);

    let board = w.rankings(None);
    assert!(board.contains(">big/scan</a>"), "{board}");
    assert!(board.contains(">small/asked</a>"), "{board}");
    assert!(!board.contains("small/rocket"), "{board}");
    // Two of three in a pool the page only half shows: only the hidden
    // rocket's weight makes big/scan "top 67%" instead of top 50%.
    assert!(
        board.contains(r#"top 67%<span class="sr-only"> velocity</span>"#),
        "{board}"
    );
    // The rocket's card still measures, floor or no floor.
    let card = w.card("small/rocket");
    assert!(card.contains("top 33% velocity"), "{card}");
    assert_eq!(w.calls, 0);
}

#[test]
fn a_proxy_row_never_tops_a_measured_one() {
    let mut w = world(vec![]);
    // Measured and modest: 100 a day.
    measured(&mut w, 1, "old/steady");
    // Enrolled today, three days old, 9,000 stars: a 3,000-a-day average.
    w.track(2, "new/rocket", 0, Some(24 * 3));
    w.snapshot(2, 0, 9_000);

    let board = w.rankings(None);
    let rank = |name: &str| board.find(name).unwrap();
    assert!(rank("old/steady") < rank("new/rocket"), "{board}");

    // The stars order stays star counts, no tiers.
    let stars = w.rankings(Some("stars"));
    let rank = |name: &str| stars.find(name).unwrap();
    assert!(rank("new/rocket") < rank("old/steady"), "{stars}");
    assert_eq!(w.calls, 0);
}

#[test]
fn stars_is_the_same_board_in_another_order() {
    let mut w = world(vec![]);
    // Stars and velocity disagree row for row here, so an order is tellable.
    for (id, name, count, per_day) in [
        (1, "o/steady", 9_000, 100),
        (2, "o/big", 5_000, 200),
        (3, "o/rocket", 1_000, 400),
    ] {
        w.track(id, name, 24 * 30, None);
        w.snapshot(id, 24, count - per_day);
        w.snapshot(id, 0, count);
    }

    let names = ["o/steady", "o/big", "o/rocket"];
    let order = |page: &str| {
        let mut seen = names;
        seen.sort_by_key(|n| page.find(&format!(">{n}</a>")).unwrap());
        seen
    };

    let velocity = w.rankings(None);
    let stars = w.rankings(Some("stars"));
    assert_eq!(order(&velocity), ["o/rocket", "o/big", "o/steady"]);
    assert_eq!(order(&stars), ["o/steady", "o/big", "o/rocket"]);

    // Anything but the exact value is the default board.
    for sort in [Some("STARS"), Some(""), None] {
        assert_eq!(order(&w.rankings(sort)), order(&velocity), "{sort:?}");
    }

    // The percentile still means velocity in the stars view, row for row.
    for name in names {
        assert_eq!(
            percentile_of_row(&velocity, name),
            percentile_of_row(&stars, name),
            "{name}"
        );
        assert_eq!(row_of(&velocity, name), row_of(&stars, name));
    }
    assert_eq!(
        sorted_board(w.board(), Sort::Stars).through,
        w.board().through
    );
    assert_eq!(w.calls, 0);
}

#[test]
fn the_language_is_on_the_row_when_github_has_named_one() {
    let mut w = world(vec![]);
    measured(&mut w, 1, "o/coded");
    measured(&mut w, 2, "o/prose");
    measured(&mut w, 3, "o/obscure");
    for (id, language) in [(1, "Rust"), (3, "Fable")] {
        for repo in w.repos.iter_mut().filter(|r| r.id == id) {
            repo.language = Some(language.to_string());
        }
    }

    let board = w.rankings(None);
    // The dot wears Linguist's hex for the language, then the muted name.
    let coded = row_of(&board, "o/coded");
    assert!(coded.contains(r##"fill="#dea584""##), "{coded}");
    assert!(coded.contains(">Rust</span>"), "{coded}");
    // A language Linguist has no color for still gets its name, on the
    // neutral dot.
    let obscure = row_of(&board, "o/obscure");
    assert!(obscure.contains(r#"fill="var(--border)""#), "{obscure}");
    assert!(obscure.contains(">Fable</span>"), "{obscure}");
    // No verdict, no claim: the cell ends at the repo name.
    assert!(!row_of(&board, "o/prose").contains("c-lang"), "{board}");
    assert_eq!(w.calls, 0);
}

#[test]
fn the_head_strip_is_the_way_to_the_other_order() {
    let mut w = world(vec![]);
    measured(&mut w, 1, "o/r");
    let default = w.rankings(None);
    let stars = w.rankings(Some("stars"));

    let head = head_strip(&default);
    assert!(
        head.contains(r#"<a href="/rankings?sort=stars" aria-label="sort by stars">stars</a>"#),
        "{head}"
    );
    // The order in force is not a link to itself.
    assert!(!head.contains(">velocity</a>"), "{head}");

    let head = head_strip(&stars);
    assert!(
        head.contains(r#"<a href="/rankings" aria-label="sort by velocity">velocity</a>"#),
        "{head}"
    );
    assert!(!head.contains(">stars</a>"), "{head}");

    // The rank column is a CSS counter, so its header exists only to be read
    // aloud, and it stays a grid item so the columns do not shift.
    for head in [head_strip(&default), head_strip(&stars)] {
        assert!(
            head.starts_with(r#"<span><span class="sr-only">rank</span></span>"#),
            "{head}"
        );
    }
}

#[test]
fn the_nav_says_where_we_are_and_the_wordmark_only_goes_home() {
    let mut w = world(vec![]);
    measured(&mut w, 1, "o/r");

    let home = r#"<a href="/" aria-current="page">home</a><a href="/rankings">rankings</a>"#;
    let board = r#"<a href="/">home</a><a href="/rankings" aria-current="page">rankings</a>"#;
    for (page, nav) in [
        (w.index(), home),
        (w.rankings(None), board),
        (w.rankings(Some("stars")), board),
    ] {
        assert!(page.contains(&format!("<nav>{nav}</nav>")), "{page}");
        // The wordmark is the way home and says nothing about where we are.
        assert!(page.contains(r#"<a class="wordmark" href="/">"#), "{page}");
    }
}

#[test]
fn the_pages_carry_their_attribution_and_no_script() {
    let mut w = world(vec![]);
    measured(&mut w, 1, "o/r");
    for page in [w.index(), w.rankings(None)] {
        // Attribution without affiliation, on both.
        assert!(page.contains("Source: GitHub public API"), "{page}");
        assert!(page.contains("not affiliated with GitHub"), "{page}");
        assert!(page.contains("snapshots through 20"), "{page}");
        // Server-rendered, and it stays that way.
        assert!(!page.contains("<script"), "{page}");
        // Safari ignores an SVG favicon, so the PNG is not a nicety.
        assert!(
            page.contains(r#"<link rel="icon" type="image/svg+xml" href="/static/favicon.svg">"#),
            "{page}"
        );
        assert!(
            page.contains(
                r#"<link rel="icon" type="image/png" sizes="96x96" href="/static/favicon-96.png">"#
            ),
            "{page}"
        );
        assert!(
            page.contains(r#"<link rel="apple-touch-icon" href="/static/apple-touch-icon.png">"#),
            "{page}"
        );
        assert!(
            page.contains(
                r#"<a href="https://github.com/afterglowhq/afterglow">source on GitHub</a> · <a href="https://x.com/afterglowwatch">@afterglowwatch on X</a> · <a href="https://bsky.app/profile/afterglow.watch">@afterglow.watch on Bluesky</a>"#
            ),
            "{page}"
        );
        assert!(page.contains(FONT_URL), "{page}");
    }

    let index = w.index();
    assert!(
        index.contains("only comprehensive, cross-ecosystem accumulating series"),
        "{index}"
    );
    assert!(index.contains(r#"action="/enroll""#), "{index}");
    assert!(index.contains("hello@afterglow.watch"), "{index}");
    // The badge examples are drawn for a repo that is really tracked.
    assert!(index.contains(r#"src="/badge/o/r""#), "{index}");
    // The leaderboard leads to the month that was replayed.
    assert!(
        w.rankings(None)
            .contains(&format!("href=\"{APRIL_2025_URL}\"")),
    );
}

#[test]
fn a_decline_keeps_the_glyph_and_loses_the_green() {
    let mut w = world(vec![]);
    measured(&mut w, 1, "o/rising");
    w.track(2, "o/falling", 24 * 30, None);
    w.snapshot(2, 25, 5_000);
    w.snapshot(2, 1, 4_900);
    // Young, one reading: a lifetime average and nothing measured.
    w.track(3, "o/young", 24, Some(24 * 10));
    w.snapshot(3, 1, 300);
    // Old, one reading: no honest number at all, so it has no row.
    w.track(4, "o/quiet", 24 * 40, Some(24 * 400));
    w.snapshot(4, 1, 5_000);

    let board = w.rankings(None);
    assert!(
        board.contains(
            r#"<span class="num drop"><span class="sr-only">losing </span><span aria-hidden="true">▼ </span>100/day</span>"#
        ),
        "{board}"
    );
    assert!(
        board.contains(
            r#"<span class="num gain"><span class="sr-only">gaining </span><span aria-hidden="true">▲ </span>100/day</span>"#
        ),
        "{board}"
    );
    // Proxy rows are muted, with no percentile and no spark: glow is earned.
    assert!(
        board.contains(r#"<span class="num proxy">~30 avg</span>"#),
        "{board}"
    );
    assert!(!board.contains("o/quiet"), "{board}");
}

#[test]
fn a_measured_row_says_out_loud_what_the_layout_shows() {
    let mut w = world(vec![]);
    measured(&mut w, 1, "o/rising");
    // Young, one reading: the proxy cell already says "avg" in its own text.
    w.track(2, "o/young", 24, Some(24 * 10));
    w.snapshot(2, 1, 300);

    let board = w.rankings(None);
    let row = row_of(&board, "o/rising");
    // The count is naked without this: the star is an octicon and aria-hidden.
    assert!(
        row.contains(r#"1,100<span class="sr-only"> stars</span>"#),
        "{row}"
    );
    // The glyph is decoration and the word is what carries it, so the row a
    // screen reader hears is "gaining 100/day", the phrase the pill uses.
    assert!(
        row.contains(
            r#"<span class="sr-only">gaining </span><span aria-hidden="true">▲ </span>100/day"#
        ),
        "{row}"
    );
    // The percentile is the same claim the card's line makes, so it names the
    // number it is a percentile of.
    assert!(
        row.contains(r#"top 100%<span class="sr-only"> velocity</span>"#),
        "{row}"
    );

    // A proxy row reads as it always did, glyphless and unranked.
    let young = row_of(&board, "o/young");
    assert!(
        young.contains(r#"<span class="num proxy">~30 avg</span>"#),
        "{young}"
    );
    assert!(!young.contains("gaining"), "{young}");
}

#[test]
fn an_opted_out_repo_reads_as_never_tracked() {
    let mut w = world(vec![]);
    measured(&mut w, 1, "o/kept");
    w.track_as(2, "o/gone", 24 * 30, None, "opted_out");
    w.snapshot(2, 25, 1_000);
    w.snapshot(2, 1, 99_000);

    // Not paused: paused says we are still watching and cannot see.
    for shape in [
        Shape::Pill(Cut::Flat),
        Shape::Peak(Cut::Social),
        shape_of(Some("card"), None, None),
        shape_of(Some("history"), None, Some("dark")),
    ] {
        let (svg, cache) = w.draw("o/gone", shape);
        assert!(svg.contains("not tracked"), "{svg}");
        assert!(!svg.contains("tracking paused"), "{svg}");
        assert_eq!(cache, "public, max-age=300");
        // To the byte what a name that GitHub does not know gets.
        let never = render("o/gone", &None, shape, &fonts());
        assert_eq!(svg, never.0);
    }

    // Gone from the board, and gone from the pool the percentile is against.
    let board = w.rankings(None);
    assert!(!board.contains("o/gone"), "{board}");
    assert!(board.contains("o/kept"), "{board}");
    assert!(w.card("o/kept").contains("top 100%"));

    // The series it already has stays where it is.
    assert_eq!(w.readings(2).len(), 2);
    assert_eq!(w.calls, 0);
}

#[test]
fn the_form_enrolls_once_and_then_has_nothing_to_do() {
    let mut w = world(vec![]);
    let created = iso8601_utc(w.now - 400 * 24 * HOUR);
    w.answers
        .push_back(Some(github_repo(42, "Owner/Repo", 1_234, &created)));

    let first = enrolled(&w.submit("https://github.com/owner/repo"));
    assert!(first.contains("Tracking Owner/Repo"), "{first}");
    assert_eq!(w.calls, 1);
    assert_eq!(w.repos.iter().filter(|r| r.lane == "manual").count(), 1);
    assert_eq!(w.snapshots, [(42, iso8601_utc(w.now), 1_234)]);

    // Submitting it again costs nothing: no call, no row, no second budget.
    let again = enrolled(&w.submit("owner/repo"));
    assert!(again.contains("is already tracked"), "{again}");
    assert_eq!(w.calls, 1);
    assert_eq!(w.repos.len(), 1);
    assert_eq!(w.snapshots.len(), 1);
    assert_eq!(w.budgets.manual.spent, 1);

    // Junk in the box is answered, not enrolled.
    let junk = enrolled(&w.submit("not a repo"));
    assert!(junk.contains("not a repo name"), "{junk}");
    assert_eq!(w.calls, 1);
}

#[test]
fn a_spent_manual_budget_queues_the_submission() {
    let mut w = world(vec![Some(github_repo(
        42,
        "owner/repo",
        5,
        "2026-01-01T00:00:00Z",
    ))]);
    let today = date_utc(w.now);
    for _ in 0..MANUAL_DAILY_BUDGET {
        assert!(w.budgets.spend_enrollment(Lane::Manual, &today));
    }

    let got = enrolled(&w.submit("owner/repo"));
    assert!(got.contains("is queued"), "{got}");
    assert!(got.contains("nothing is dropped"), "{got}");
    assert_eq!(w.queued(), ["owner/repo"]);
    // Which lane asked rides along, so the drain can record it on the repo.
    assert_eq!(w.queue[0].1, "manual");
    assert!(w.repos.is_empty());
    assert_eq!(w.calls, 0);
}

#[test]
fn the_form_will_not_re_enroll_a_repo_that_opted_out() {
    let mut w = world(vec![]);
    w.track_as(7, "o/gone", 24 * 30, None, "opted_out");

    let got = enrolled(&w.submit("o/gone"));
    // The same answer an unknown repo gets: opting out is not a status anyone
    // can read off the site.
    assert!(got.contains("Nothing to track for"), "{got}");
    assert_eq!(w.repos[0].status, "opted_out");
    assert_eq!(w.calls, 0);
    assert!(w.queue.is_empty());
}

#[test]
fn a_renamed_opt_out_is_caught_by_its_id() {
    let mut w = world(vec![Some(github_repo(
        7,
        "o/renamed",
        900,
        "2026-01-01T00:00:00Z",
    ))]);
    w.track_as(7, "o/old-name", 24 * 30, None, "opted_out");

    let got = w.pill("o/renamed");
    assert!(got.contains("not tracked"), "{got}");
    assert_eq!(w.calls, 1);
    // Asked about, and still not written down.
    assert!(w.snapshots.is_empty());
    assert_eq!(w.repos.len(), 1);
    assert_eq!(w.repos[0].name, "o/old-name");
}

#[test]
fn percentile_counts_the_repo_in_its_own_pool() {
    let mut w = world(vec![]);
    for (id, per_day) in [(1, 400), (2, 300), (3, 200), (4, 100)] {
        w.track(id, &format!("o/r{id}"), 24 * 30, None);
        w.snapshot(id, 24, 1_000);
        w.snapshot(id, 0, 1_000 + per_day);
    }
    // A repo that left the fleet is not part of the fleet.
    w.track_as(5, "o/gone", 24 * 30, None, "inactive");
    w.snapshot(5, 24, 1_000);
    w.snapshot(5, 0, 99_000);

    let series = w.fleet();
    let of = |v: i64| {
        let share = percentile(&series, v);
        100.0 * share.ahead as f64 / share.pool as f64
    };
    assert_eq!(of(400), 25.0);
    assert_eq!(of(300), 50.0);
    assert_eq!(of(100), 100.0);
    // Faster than everyone measured is still one repo out of the pool.
    assert_eq!(of(5_000), 25.0);
}

#[test]
fn spark_maps_time_across_the_region_and_stars_between_the_rows() {
    let mut w = world(vec![]);
    w.now = parse_iso8601_utc("2026-07-31T00:00:00Z").unwrap();
    w.track(1, "o/r", 24 * 40, None);
    for (ts, stars) in [
        ("2026-07-01T00:00:00Z", 100),
        ("2026-07-16T00:00:00Z", 150),
        // Same UTC day as the reading above: only the last of a day draws.
        ("2026-07-16T18:00:00Z", 160),
        ("2026-07-31T00:00:00Z", 200),
        // Older than the window.
        ("2026-06-01T00:00:00Z", 1),
    ] {
        w.snapshot_at(1, ts, stars);
    }
    // One reading is not a line.
    w.track(2, "o/one", 24, None);
    w.snapshot_at(2, "2026-07-30T00:00:00Z", 5);
    // A flat series sits in the middle of the region.
    w.track(3, "o/flat", 24 * 10, None);
    w.snapshot_at(3, "2026-07-29T00:00:00Z", 7);
    w.snapshot_at(3, "2026-07-30T00:00:00Z", 7);

    let spark = |id: i64| -> Vec<(f64, f64)> {
        spark_points(&w.recent(id), w.now, &card_spark(), None)
            .iter()
            .map(|p| (p.x as f64 / 10.0, p.y as f64 / 10.0))
            .collect()
    };
    assert_eq!(spark(1), [(0.0, 36.0), (203.7, 16.8), (388.0, 4.0)]);
    assert!(spark(2).is_empty());
    assert!(spark(3).iter().all(|&(_, y)| y == 20.0));
}

#[test]
fn board_minisparks_share_one_vertical_scale() {
    let mut w = world(vec![]);
    // Three measured repos over the same two days: rises of 100, 10, and 1.
    for (id, name, latest) in [(1, "o/fast", 300), (2, "o/slow", 210), (3, "o/crawl", 201)] {
        w.track(id, name, 24 * 40, None);
        w.snapshot(id, 48, 200);
        w.snapshot(id, 0, latest);
    }

    let b = w.board();
    let rise = |row: &BoardRow| {
        let ys = row.spark.iter().map(|p| p.y as f64 / 10.0);
        let rise = ys.clone().fold(f64::MIN, f64::max) - ys.fold(f64::MAX, f64::min);
        (rise * 10.0).round() / 10.0
    };
    assert_eq!(names(&b), ["o/fast", "o/slow", "o/crawl"]);
    // The fastest row spans the region; the rest rise in its stars-per-pixel,
    // down to the floor that keeps movement from drawing as none.
    assert_eq!(rise(&b.rows[0]), 16.0);
    assert_eq!(rise(&b.rows[1]), 1.6);
    assert_eq!(rise(&b.rows[2]), 1.0);
    assert_eq!(w.calls, 0);
}

#[test]
fn a_failed_lookup_of_an_opt_out_counts_as_one() {
    let repo = github_repo(7, "o/r", 1, "2026-01-01T00:00:00Z");
    for opted_out in [None, Some(true)] {
        assert_eq!(
            enroll(
                Enrolling::Checking(repo.clone()),
                EnrollEvent::OptedOut(opted_out),
                0
            ),
            Enrolling::Done(Enrollment::Nothing)
        );
    }
    assert_eq!(
        enroll(
            Enrolling::Checking(repo.clone()),
            EnrollEvent::OptedOut(Some(false)),
            0
        ),
        Enrolling::Recording(repo.clone())
    );
    // Rows that could not be written are no enrollment.
    assert_eq!(
        enroll(Enrolling::Recording(repo.clone()), EnrollEvent::Recorded(false), 0),
        Enrolling::Done(Enrollment::Nothing)
    );
    // An answer to another question changes nothing.
    assert_eq!(
        enroll(Enrolling::Asking, EnrollEvent::Parked, 0),
        Enrolling::Asking
    );
}

#[test]
fn a_store_that_cannot_be_read_shows_nothing_and_enrolls_nobody() {
    assert_eq!(
        resolve(resolve_start("o/r"), ResolveEvent::LookedUp(Lookup::Failed), 0),
        Resolving::Done(None)
    );
    assert_eq!(
        Submission::start("o/r")
            .submit(SubmitEvent::LookedUp(Lookup::Failed), 0)
            .step,
        Submitting::Done(Outcome::Nothing {
            full_name: "o/r".to_string()
        })
    );
    let repo = TrackedRepo {
        id: 1,
        full_name: "o/r".to_string(),
        status: Status::Active,
        enrolled_at: "2026-07-31T00:00:00Z".to_string(),
        created_at: None,
    };
    assert_eq!(
        resolve(Resolving::Gathering(repo), ResolveEvent::Gathered(None), 0),
        Resolving::Done(None)
    );
}

#[test]
fn a_request_asks_github_only_about_names_that_are_not_held() {
    // Junk is looked up by nobody.
    assert_eq!(resolve_start("not-a-repo"), Resolving::Done(None));
    assert_eq!(resolve_start("o/r"), Resolving::LookingUp);
    let next = resolve(resolve_start("o/r"), ResolveEvent::LookedUp(Lookup::Absent), 0);
    assert_eq!(next, Resolving::Spending);
    assert_eq!(
        resolve(next.clone(), ResolveEvent::Spent(true), 0),
        Resolving::Enrolling(Enrolling::Asking)
    );
    assert_eq!(
        resolve(next.clone(), ResolveEvent::Spent(false), 0),
        Resolving::Enrolling(enroll_start(false))
    );
    // An answer to another question changes nothing.
    assert_eq!(resolve(next.clone(), ResolveEvent::Gathered(None), 0), next);
    assert_eq!(
        Submission::start("github.com/o/r.git/")
            .submit(SubmitEvent::LookedUp(Lookup::Absent), 0),
        Submission {
            full_name: "o/r".to_string(),
            step: Submitting::Spending
        }
    );
    assert_eq!(
        Submission::start("not a repo").step,
        Submitting::Done(Outcome::Malformed)
    );
}

#[test]
fn a_paused_repo_is_paused_whatever_it_measured() {
    let mut w = world(vec![]);
    w.track_as(1, "o/r", 24 * 30, Some(24), "inactive");
    w.snapshot(1, 25, 1_000);
    w.snapshot(1, 1, 1_100);
    let svg = w.pill("o/r");
    assert!(svg.contains("tracking paused"), "{svg}");
    assert!(svg.contains("1,100"), "{svg}");
    assert_eq!(max_age_for(afterglow::badge::BadgeState::Paused), 3_600);
}

#[test]
fn the_site_shows_the_first_row_and_names_nobody_without_one() {
    let mut w = world(vec![]);
    let page = w.index();
    assert!(!page.contains(r#"<div class="examples">"#), "{page}");
    assert!(
        page.contains("<pre><code>![stars](https://afterglow.watch/badge/OWNER/REPO)</code></pre>"),
        "{page}"
    );
    assert!(!page.contains("snapshots through"), "{page}");
    measured(&mut w, 1, "o/r");
    let page = w.index();
    assert!(
        page.contains("<pre><code>![stars](https://afterglow.watch/badge/o/r)</code></pre>"),
        "{page}"
    );
    assert!(
        page.contains("<pre><code>https://afterglow.watch/svg?repos=o/r&amp;type=Date</code></pre>"),
        "{page}"
    );
    assert!(
        page.contains(
            r#"<source media="(prefers-color-scheme: dark)" srcset="/badge/o/r?style=card&amp;theme=dark"><img src="/badge/o/r?style=card" alt="afterglow card for o/r" width="420" height="150">"#
        ),
        "{page}"
    );
    assert!(page.contains("snapshots through 2026-07-31 11:00 UTC"), "{page}");
}

#[test]
fn a_row_carries_its_line() {
    let mut w = world(vec![]);
    measured(&mut w, 1, "o/r");
    let page = w.rankings(None);
    let row = row_of(&page, "o/r");
    assert!(
        row.contains(
            r#"<svg class="c-spark spark" aria-hidden="true" width="100" height="24" viewBox="0 0 100 24"><path d="M96.5,20 L99.9,4 L99.9,24 L96.5,24 Z" fill="url(#glow)"></path><polyline points="96.5,20 99.9,4"></polyline></svg>"#
        ),
        "{row}"
    );
    assert!(
        row.starts_with(r#"<span class="c-repo"><a href="https://github.com/o/r">o/r</a></span>"#),
        "{row}"
    );
}

#[test]
fn a_page_escapes_what_comes_from_outside() {
    let row = BoardRow {
        full_name: r#"<b>&"x"'"#.to_string(),
        language: Some("<i>".to_string()),
        stars: 1_234,
        velocity: afterglow::board::RowVelocity::Proxy { avg: 7 },
        spark: vec![],
    };
    let colors = vec![("<i>".to_string(), "\"red".to_string())];
    assert_eq!(
        board_row(&row, &colors),
        r##"<span class="c-repo"><a href="https://github.com/&lt;b&gt;&amp;&quot;x&quot;'">&lt;b&gt;&amp;&quot;x&quot;'</a><span class="c-lang"><svg class="dot" aria-hidden="true" viewBox="0 0 8 8"><circle cx="4" cy="4" r="4" fill="&quot;red"></circle></svg>&lt;i&gt;</span></span><span class="c-spark"></span><span class="c-stars num"><svg class="star" aria-hidden="true" viewBox="0 0 16 16"><use href="#star"></use></svg>1,234<span class="sr-only"> stars</span></span><span class="num proxy">~7 avg</span><span class="c-pct"></span>"##
    );
}

#[test]
fn a_board_without_rows_says_so() {
    let page = rankings(&Board::default(), Sort::Velocity, &vec![]);
    assert!(page.contains("<p>Nothing measured yet."), "{page}");
    assert!(!page.contains(r#"<ol class="board">"#), "{page}");
    assert!(page.contains("<title>Afterglow velocity rankings</title>"), "{page}");
}

#[test]
fn a_stamp_is_a_minute() {
    assert_eq!(
        stamp("2026-07-31T05:31:47Z").as_deref(),
        Some("2026-07-31 05:31 UTC")
    );
    assert_eq!(stamp("2026-07-31"), None);
    assert_eq!(stamp("2026-07-31T5"), None);
}

#[test]
fn a_reply_fits_its_outcome() {
    let name = || "o/r".to_string();
    let queued = enrolled(&Outcome::Queued { full_name: name() });
    assert!(queued.contains("<h1>o/r is queued</h1>"), "{queued}");
    assert!(!queued.contains("/badge/"), "{queued}");
    let nothing = enrolled(&Outcome::Nothing { full_name: name() });
    assert!(
        nothing.contains(
            "<main><h1>Nothing to track for o/r</h1><p>Either there is no public repo by that name, or its maintainer asked us not to track it.</p><p><a href=\"/\">Back to afterglow.watch</a></p></main>"
        ),
        "{nothing}"
    );
    let fresh = enrolled(&Outcome::Tracking {
        full_name: name(),
        fresh: true,
    });
    assert!(
        fresh.contains(
            r#"<div class="examples"><img src="/badge/o/r" alt="afterglow pill for o/r" height="20"></div><pre><code>![stars](https://afterglow.watch/badge/o/r)</code></pre>"#
        ),
        "{fresh}"
    );
}

#[test]
fn rows_that_tie_go_by_name_and_equal_ones_keep_their_order() {
    let mut w = world(vec![]);
    for (id, name) in [(1, "b/b"), (2, "a/a"), (3, "c/c"), (4, "a/a")] {
        w.track(id, name, 24 * 30, None);
        w.snapshot(id, 24, 1_000 * id);
        w.snapshot(id, 0, 1_000 * id + 7);
    }
    let board = w.board();
    assert_eq!(names(&board), ["a/a", "a/a", "b/b", "c/c"]);
    assert_eq!(board.rows[0].stars, 2_007);
    assert_eq!(board.rows[1].stars, 4_007);
    assert_eq!(Board::default(), board_of_nobody());
}

fn board_of_nobody() -> Board {
    world(vec![]).board()
}

#[test]
fn readings_of_one_repo_are_gathered() {
    let row = |id: i64, name: &str, ts: &str| FleetReading {
        id,
        full_name: name.to_string(),
        created_at: None,
        language: None,
        lane: "scan".to_string(),
        reading: Reading {
            ts: ts.to_string(),
            stars: 1,
        },
    };
    let series = recent_series(vec![
        row(1, "a/b", "t1"),
        row(1, "a/renamed", "t2"),
        row(2, "c/d", "t1"),
        row(1, "a/b", "t3"),
    ]);
    let shape: Vec<(i64, &str, usize)> = series
        .iter()
        .map(|s| (s.id, s.full_name.as_str(), s.readings.len()))
        .collect();
    assert_eq!(shape, [(1, "a/b", 2), (2, "c/d", 1), (1, "a/b", 1)]);
}

#[test]
fn a_card_draws_the_line_of_its_own_readings() {
    let mut w = world(vec![]);
    measured(&mut w, 1, "o/r");
    let badge = w.resolve("o/r").unwrap();
    assert_eq!(badge.tracked_since, "2026-07-01");
    assert_eq!(
        badge.spark,
        [Point { x: 3745, y: 360 }, Point { x: 3875, y: 40 }]
    );
}
