//! What the server answers: which badge a name gets, who gets enrolled and who is left alone,
//! and the headers around it all.
//!
//! One rule sits under all of it: what is shown is answered from stored readings. The only
//! question that ever goes to GitHub is the one that enrolls a repo nobody has asked for
//! before.

use vstd::prelude::*;

#[allow(unused_imports)]
use crate::badge::{
    card, card_of, not_tracked_card, not_tracked_card_of, BadgeState, Fonts, Point, RepoBadge, Theme,
};
#[allow(unused_imports)]
use crate::board::{fleet, on_board, percentile, row_of, series_views, RowVelocity, Series, SeriesView, Sort};
#[allow(unused_imports)]
use crate::cuts::{not_tracked_cut, not_tracked_cut_of, peak_cut, peak_cut_of, pill_cut, pill_cut_of, Cut};
#[allow(unused_imports)]
use crate::github::Repo;
#[allow(unused_imports)]
use crate::history::{
    history, history_of, history_region, history_spark, not_tracked_history, not_tracked_history_of,
};
#[allow(unused_imports)]
use crate::names::{display_name, full_name_allowed, pasted_name, repo_name, shown_name, valid_full_name};
#[allow(unused_imports)]
use crate::text::{
    byte_prefix, byte_prefix_of, decimal, is_text, lent_text, opt_slice, opt_text, push_decimal, same, starts_with,
    strip_prefix_of,
};
#[allow(unused_imports)]
use crate::time::{date_of, date_utc};
#[allow(unused_imports)]
use crate::velocity::{
    card_region, card_spark, cutoff_of, history_line, history_points, last_by, lemma_series_rate_fits, opt_peak,
    pair_rate, peak, peak_of, proxy_average, proxy_rate, series_rate, share_of, spark_line, spark_points, velocity,
    Reading, SPARK_WINDOW,
};

verus! {

/// Enrollments the embed lane spends in one UTC day; overflow queues.
pub const EMBED_DAILY_BUDGET: u32 = 256;

/// The site form's own budget. Smaller than the embed lane's: a person typing a name is rarer
/// than a README loading, and it queues rather than refuses.
pub const MANUAL_DAILY_BUDGET: u32 = 64;

/// Day-one and not-tracked states change tomorrow; measured badges can sit in the CDN.
pub const FRESH_MAX_AGE: u32 = 300;

pub const SETTLED_MAX_AGE: u32 = 3600;

/// Both pages are a snapshot of a store that moves once a day.
pub const PAGE_CACHE: &'static str = "public, max-age=300";

/// What the form says back is about one request and belongs to nobody else.
pub const NO_STORE: &'static str = "no-store";

/// The font is content-addressed by its path; a new cut would get a new one.
pub const FONT_CACHE: &'static str = "public, max-age=31536000, immutable";

/// A tab icon moves when the brand does, which is not on any schedule.
pub const ICON_CACHE: &'static str = "public, max-age=86400";

pub const FONT_URL: &'static str = "/static/mona-sans.woff2";

pub const ICON_SVG_URL: &'static str = "/static/favicon.svg";

pub const ICON_PNG_URL: &'static str = "/static/favicon-96.png";

pub const TOUCH_ICON_URL: &'static str = "/static/apple-touch-icon.png";

pub const APRIL_2025_URL: &'static str = "/april-2025";

/// Two years of HTTPS-only, and deliberately no `preload` token: that token is a claim that
/// the domain is submitted to the browser preload list, and it is not.
pub const HSTS: &'static str = "max-age=63072000; includeSubDomains";

/// What a page actually loads: its own images, its own font, the stylesheet that ships inline,
/// and a form that posts back to us. No script anywhere.
pub const PAGE_CSP: &'static str = "default-src 'none'; img-src 'self'; style-src 'unsafe-inline'; font-src 'self'; form-action 'self'; base-uri 'none'; frame-ancestors 'none'";

/// Everything else we serve fetches nothing.
pub const STRICT_CSP: &'static str = "default-src 'none'";

pub const NOT_FOUND: &'static str = "Nothing here. Badges are at /badge/{owner}/{repo}.\n";

pub const SVG_TYPE: &'static str = "image/svg+xml; charset=utf-8";

pub const HTML_TYPE: &'static str = "text/html; charset=utf-8";

pub const TEXT_TYPE: &'static str = "text/plain; charset=utf-8";

// ---------------------------------------------------------------- headers

/// The security headers of an answer with a content type, as names and values.
pub open spec fn headers_of(content_type: Option<Seq<char>>) -> Seq<(Seq<char>, Seq<char>)> {
    let page = content_type matches Some(kind) && starts_with(kind, "text/html"@);
    let common = seq![
        ("x-content-type-options"@, "nosniff"@),
        ("referrer-policy"@, "no-referrer"@),
        ("strict-transport-security"@, HSTS@),
        ("content-security-policy"@, if page { PAGE_CSP@ } else { STRICT_CSP@ }),
    ];
    if page {
        common.push(("x-frame-options"@, "DENY"@))
    } else {
        common
    }
}

/// A list of headers as texts.
pub open spec fn header_texts(v: Seq<(&'static str, &'static str)>) -> Seq<(Seq<char>, Seq<char>)> {
    v.map_values(|h: (&'static str, &'static str)| (h.0@, h.1@))
}

/// The security headers, on everything the router answers with.
///
/// At the origin rather than at the edge, so they travel with the app and survive a CDN
/// change. Only the CSP and the framing rule differ by kind, and both read the content type
/// that was already set. The framing rule is for pages only: a badge is embedded cross-origin
/// as an image by design.
pub fn secure(content_type: Option<&str>) -> (r: Vec<(&'static str, &'static str)>)
    ensures
        header_texts(r@) == headers_of(opt_slice(content_type)),
{
    let page = match content_type {
        Some(kind) => strip_prefix_of(kind, "text/html").is_some(),
        None => false,
    };
    let mut out: Vec<(&'static str, &'static str)> = Vec::new();
    out.push(("x-content-type-options", "nosniff"));
    out.push(("referrer-policy", "no-referrer"));
    out.push(("strict-transport-security", HSTS));
    out.push(
        (
            "content-security-policy",
            if page {
                PAGE_CSP
            } else {
                STRICT_CSP
            },
        ),
    );
    if page {
        out.push(("x-frame-options", "DENY"));
    }
    assert(header_texts(out@) =~= headers_of(opt_slice(content_type)));
    out
}

/// Every answer says the four things that hold for all of them, each once, and a page says on
/// top of them that it is framed by nobody. What a page may load is its own; what is no page may
/// load nothing.
pub proof fn law_every_answer_is_secured(content_type: Option<Seq<char>>)
    ensures
        ({
            let headers = headers_of(content_type);
            let page = content_type matches Some(kind) && kind.len() >= 9 && kind.take(9)
                == "text/html"@;
            &&& headers.len() == if page {
                5int
            } else {
                4
            }
            &&& headers.contains(("x-content-type-options"@, "nosniff"@))
            &&& headers.contains(("referrer-policy"@, "no-referrer"@))
            &&& headers.contains(
                ("strict-transport-security"@, "max-age=63072000; includeSubDomains"@),
            )
            &&& headers.contains(("content-security-policy"@, PAGE_CSP@)) <==> page
            &&& headers.contains(("content-security-policy"@, "default-src 'none'"@)) <==> !page
            &&& headers.contains(("x-frame-options"@, "DENY"@)) <==> page
        }),
{
    reveal_strlit("text/html");
    reveal_strlit("x-content-type-options");
    reveal_strlit("referrer-policy");
    reveal_strlit("strict-transport-security");
    reveal_strlit("content-security-policy");
    reveal_strlit("x-frame-options");
    reveal_strlit("default-src 'none'");
    reveal_strlit(
        "default-src 'none'; img-src 'self'; style-src 'unsafe-inline'; font-src 'self'; form-action 'self'; base-uri 'none'; frame-ancestors 'none'",
    );
    let headers = headers_of(content_type);
    assert(headers[0] == ("x-content-type-options"@, "nosniff"@));
    assert(headers[1] == ("referrer-policy"@, "no-referrer"@));
    assert(headers[2] == ("strict-transport-security"@, HSTS@));
    assert(headers[3].0 == "content-security-policy"@);
    assert(PAGE_CSP@.len() != STRICT_CSP@.len());
    let (a, b, c) = ("x-content-type-options"@, "referrer-policy"@, "strict-transport-security"@);
    let (d, e) = ("content-security-policy"@, "x-frame-options"@);
    assert(a[0] == 'x' && b[0] == 'r' && c[0] == 's' && d[0] == 'c' && e[0] == 'x');
    assert(a[2] == 'c' && e[2] == 'f');
    if headers.len() == 5 {
        assert(headers[4] == (e, "DENY"@));
    }
}

/// How long a badge may be kept: an enrollment changes tomorrow, the rest is settled.
pub open spec fn age_of(state: BadgeState) -> u32 {
    if state is Enrolled {
        FRESH_MAX_AGE
    } else {
        SETTLED_MAX_AGE
    }
}

pub fn max_age_for(state: BadgeState) -> (r: u32)
    ensures
        r == age_of(state),
{
    match state {
        BadgeState::Enrolled => FRESH_MAX_AGE,
        _ => SETTLED_MAX_AGE,
    }
}

/// What changes tomorrow is kept for five minutes, and what is settled for an hour.
pub proof fn law_only_the_first_day_is_short_lived(state: BadgeState)
    ensures
        state is Enrolled ==> age_of(state) == 300,
        !(state is Enrolled) ==> age_of(state) == 3_600,
{
}

/// What a badge's answer says about keeping it.
pub fn cache_control(max_age: u32) -> (r: String)
    ensures
        r@ == "public, max-age="@ + decimal(max_age as nat),
{
    let mut out = "public, max-age=".to_owned();
    push_decimal(&mut out, max_age as u128);
    out
}

// ---------------------------------------------------------------- what was asked for

#[derive(Debug, Clone, Copy, PartialEq, Eq, Structural)]
pub enum Shape {
    /// The count and the rate.
    Pill(Cut),
    /// The count and the highest day that was ever measured.
    Peak(Cut),
    /// The last 30 days.
    Card(Theme),
    /// The whole series.
    History(Theme),
}

/// The theme that a query names; anything else is light.
pub open spec fn theme_named(theme: Option<Seq<char>>) -> Theme {
    if theme == Some("dark"@) {
        Theme::Dark
    } else {
        Theme::Light
    }
}

pub fn theme_of(theme: Option<&str>) -> (r: Theme)
    ensures
        r == theme_named(opt_slice(theme)),
{
    if is_text(theme, "dark") {
        Theme::Dark
    } else {
        Theme::Light
    }
}

/// The cut that a style names; anything else is the flat one.
pub open spec fn cut_named(style: Option<Seq<char>>) -> Cut {
    if style == Some("flat-square"@) {
        Cut::FlatSquare
    } else if style == Some("for-the-badge"@) {
        Cut::ForTheBadge
    } else if style == Some("social"@) {
        Cut::Social
    } else {
        Cut::Flat
    }
}

pub fn cut_of(style: Option<&str>) -> (r: Cut)
    ensures
        r == cut_named(opt_slice(style)),
{
    if is_text(style, "flat-square") {
        Cut::FlatSquare
    } else if is_text(style, "for-the-badge") {
        Cut::ForTheBadge
    } else if is_text(style, "social") {
        Cut::Social
    } else {
        Cut::Flat
    }
}

/// The shape that a query names. The card and the history have a theme and no metric; the rest
/// is a pill in the cut of its style, and the metric says what it prints. An unreadable style is
/// the flat cut and an unreadable metric is the rate: a badge URL never gets to error.
pub open spec fn shape_named(
    style: Option<Seq<char>>,
    metric: Option<Seq<char>>,
    theme: Option<Seq<char>>,
) -> Shape {
    if style == Some("card"@) {
        Shape::Card(theme_named(theme))
    } else if style == Some("history"@) {
        Shape::History(theme_named(theme))
    } else if metric == Some("peak"@) {
        Shape::Peak(cut_named(style))
    } else {
        Shape::Pill(cut_named(style))
    }
}

pub fn shape_of(style: Option<&str>, metric: Option<&str>, theme: Option<&str>) -> (r: Shape)
    ensures
        r == shape_named(opt_slice(style), opt_slice(metric), opt_slice(theme)),
{
    if is_text(style, "card") {
        Shape::Card(theme_of(theme))
    } else if is_text(style, "history") {
        Shape::History(theme_of(theme))
    } else if is_text(metric, "peak") {
        Shape::Peak(cut_of(style))
    } else {
        Shape::Pill(cut_of(style))
    }
}

/// Whether a shape is drawn from all readings of a repo.
pub fn needs_all(shape: Shape) -> (r: bool)
    ensures
        r == (shape is Peak || shape is History),
{
    match shape {
        Shape::Peak(_) => true,
        Shape::History(_) => true,
        _ => false,
    }
}

/// A theme moves the card and the history and nothing else, a metric moves the pills and nothing
/// else, and whatever cannot be read is as if it had not been said.
pub proof fn law_queries_mean_what_they_name(
    style: Option<Seq<char>>,
    metric: Option<Seq<char>>,
    theme: Option<Seq<char>>,
)
    ensures
        ({
            let shape = shape_named(style, metric, theme);
            &&& shape is Card <==> style == Some("card"@)
            &&& shape is History <==> style == Some("history"@)
            &&& shape is Peak <==> !(shape is Card) && !(shape is History) && metric == Some("peak"@)
            &&& shape matches Shape::Card(t) ==> (t == Theme::Dark <==> theme == Some("dark"@))
            &&& shape matches Shape::History(t) ==> (t == Theme::Dark <==> theme == Some("dark"@))
            &&& forall|cut: Cut|
                shape == Shape::Pill(cut) || shape == Shape::Peak(cut) ==> {
                    &&& cut == Cut::FlatSquare <==> style == Some("flat-square"@)
                    &&& cut == Cut::ForTheBadge <==> style == Some("for-the-badge"@)
                    &&& cut == Cut::Social <==> style == Some("social"@)
                }
        }),
{
    reveal_strlit("card");
    reveal_strlit("history");
    reveal_strlit("flat-square");
    reveal_strlit("for-the-badge");
    reveal_strlit("social");
    assert("card"@.len() == 4 && "history"@.len() == 7 && "flat-square"@.len() == 11
        && "for-the-badge"@.len() == 13 && "social"@.len() == 6);
}

/// The order that a query names. An unreadable sort is the default board, the way an
/// unreadable style is the pill.
pub fn sort_of(sort: Option<&str>) -> (r: Sort)
    ensures
        r == if opt_slice(sort) == Some("stars"@) {
            Sort::Stars
        } else {
            Sort::Velocity
        },
{
    if is_text(sort, "stars") {
        Sort::Stars
    } else {
        Sort::Velocity
    }
}

/// The name that a badge URL spells.
pub fn canonical_name(owner: &str, repo: &str) -> (r: String)
    ensures
        r@ == owner@ + "/"@ + repo@,
{
    let mut out = owner.to_owned();
    out.append("/");
    out.append(repo);
    out
}

// ---------------------------------------------------------------- badge from the store

/// What the repo row says we may do with a repo.
#[derive(Debug, Clone, Copy, PartialEq, Eq, Structural)]
pub enum Status {
    Active,
    /// Gone from our vantage point: the series is kept, the badge says paused.
    Inactive,
    /// The maintainer asked us to stop.
    OptedOut,
}

/// The status that a row's text stands for.
pub open spec fn status_named(s: Seq<char>) -> Status {
    if s == "inactive"@ {
        Status::Inactive
    } else if s == "opted_out"@ {
        Status::OptedOut
    } else {
        Status::Active
    }
}

impl Status {
    pub fn read(s: &str) -> (r: Status)
        ensures
            r == status_named(s@),
    {
        if same(s, "inactive") {
            Status::Inactive
        } else if same(s, "opted_out") {
            Status::OptedOut
        } else {
            Status::Active
        }
    }
}

/// A repo that has a row.
#[derive(Debug, Clone, PartialEq, Eq)]
pub struct TrackedRepo {
    pub id: i64,
    pub full_name: String,
    pub status: Status,
    pub enrolled_at: String,
    pub created_at: Option<String>,
}

/// The day of a moment's text, where it has one.
pub open spec fn day_of_text(ts: Seq<char>) -> Seq<char> {
    match byte_prefix(ts, 10) {
        Some(day) => day,
        None => Seq::empty(),
    }
}

/// The rate between the latest reading of a repo and one that lies far enough back.
pub open spec fn measured_rate(latest: Option<Reading>, prior: Option<Reading>) -> Option<int> {
    match (latest, prior) {
        (Some(l), Some(p)) => pair_rate(l, p),
        _ => None,
    }
}

/// The star count of the latest reading, and none where there is no reading.
pub open spec fn stars_of(latest: Option<Reading>) -> int {
    match latest {
        Some(l) => l.stars as int,
        None => 0,
    }
}

/// What the badge of a tracked repo says. A repo that is not active is paused whatever was
/// measured; a measured rate comes before everything else; the day of enrollment says so; a
/// young repo shows its average; and the rest is still measuring.
pub open spec fn state_of(
    repo: TrackedRepo,
    latest: Option<Reading>,
    prior: Option<Reading>,
    pool: Seq<i64>,
    now: int,
) -> BadgeState {
    if repo.status != Status::Active {
        BadgeState::Paused
    } else {
        match measured_rate(latest, prior) {
            Some(rate) => BadgeState::Measured {
                velocity: rate as i64,
                top_percent: share_of(pool, rate),
            },
            None => if byte_prefix(repo.enrolled_at@, 10) == Some(date_of(now)) {
                BadgeState::Enrolled
            } else {
                match proxy_rate(opt_text(repo.created_at), stars_of(latest), now) {
                    Some(avg) => BadgeState::Proxy { avg: avg as i64 },
                    None => BadgeState::Measuring,
                }
            },
        }
    }
}

/// The badge of a tracked repo, out of its latest reading, one that lies far enough back, the
/// fleet and its own readings of the last 30 days.
pub open spec fn is_badge_of(
    b: RepoBadge,
    repo: TrackedRepo,
    latest: Option<Reading>,
    prior: Option<Reading>,
    series: Seq<SeriesView>,
    recent: Seq<Reading>,
    now: int,
) -> bool {
    &&& b.full_name@ == repo.full_name@
    &&& b.stars == stars_of(latest)
    &&& b.tracked_since@ == day_of_text(repo.enrolled_at@)
    &&& b.state == state_of(repo, latest, prior, fleet(series), now)
    &&& b.spark@ == if b.state is Measured {
        spark_line(recent, now, card_region(), None)
    } else {
        Seq::empty()
    }
}

/// An optional reading that is lent.
pub open spec fn lent(r: Option<&Reading>) -> Option<Reading> {
    match r {
        Some(reading) => Some(*reading),
        None => None,
    }
}

/// Whether a badge needs the fleet and the repo's recent readings: only a measured one does.
pub fn needs_fleet(repo: &TrackedRepo, latest: Option<&Reading>, prior: Option<&Reading>) -> (r: bool)
    ensures
        r == (repo.status == Status::Active && measured_rate(lent(latest), lent(prior)) is Some),
{
    match repo.status {
        Status::Active => velocity(latest, prior).is_some(),
        _ => false,
    }
}

/// The badge of a tracked repo. `series` is the fleet that a percentile is taken from and
/// `recent` the repo's own readings of the last 30 days; neither is read unless the badge is
/// measured.
pub fn build(
    repo: &TrackedRepo,
    latest: Option<&Reading>,
    prior: Option<&Reading>,
    series: &Vec<Series>,
    recent: &Vec<Reading>,
    now: i64,
) -> (r: RepoBadge)
    requires
        now - SPARK_WINDOW >= i64::MIN,
    ensures
        is_badge_of(
            r,
            *repo,
            lent(latest),
            lent(prior),
            series_views(series@),
            recent@,
            now as int,
        ),
        r.state.wf(),
{
    let stars = match latest {
        Some(l) => l.stars,
        None => 0,
    };
    let day = byte_prefix_of(repo.enrolled_at.as_str(), 10);
    let today = date_utc(now);
    let state = match repo.status {
        Status::Active => match velocity(latest, prior) {
            Some(rate) => BadgeState::Measured {
                velocity: rate,
                top_percent: percentile(series, rate),
            },
            None => {
                if is_text(day, today.as_str()) {
                    BadgeState::Enrolled
                } else {
                    match proxy_average(lent_text(&repo.created_at), stars, now) {
                        Some(avg) => BadgeState::Proxy { avg },
                        None => BadgeState::Measuring,
                    }
                }
            },
        },
        _ => BadgeState::Paused,
    };
    let spark = match state {
        BadgeState::Measured { .. } => spark_points(recent, now, &card_spark(), None),
        _ => {
            let none: Vec<Point> = Vec::new();
            assert(none@ =~= Seq::<Point>::empty());
            none
        },
    };
    let tracked_since = match day {
        Some(day) => day.to_owned(),
        None => {
            let none = String::new();
            assert(none@ =~= Seq::<char>::empty());
            none
        },
    };
    RepoBadge { full_name: repo.full_name.clone(), stars, tracked_since, state, spark }
}

/// What a badge says is the best that is known of its repo. One that is not active is paused,
/// whatever was measured. One that two readings measured says the rate between them, and nothing
/// else is ever called measured. Of the rest the day of enrollment says so, a young repo has its
/// average, and an old one is still measuring.
pub proof fn law_a_badge_says_the_best_that_is_known(
    repo: TrackedRepo,
    latest: Option<Reading>,
    prior: Option<Reading>,
    pool: Seq<i64>,
    now: int,
)
    ensures
        ({
            let state = state_of(repo, latest, prior, pool, now);
            let measured = latest matches Some(l) && prior matches Some(p) && pair_rate(l, p) is Some;
            let stars: int = match latest {
                Some(l) => l.stars as int,
                None => 0,
            };
            let today = byte_prefix(repo.enrolled_at@, 10) == Some(date_of(now));
            let average = proxy_rate(opt_text(repo.created_at), stars, now);
            let active = repo.status == Status::Active;
            &&& state is Paused <==> !active
            &&& state is Measured <==> active && measured
            &&& state is Enrolled <==> active && !measured && today
            &&& state is Proxy <==> active && !measured && !today && average is Some
            &&& state is Measuring <==> active && !measured && !today && average is None
            &&& state matches BadgeState::Measured { velocity, top_percent } ==> velocity
                == pair_rate(latest->0, prior->0)->0 && top_percent == share_of(
                pool,
                velocity as int,
            )
            &&& state matches BadgeState::Proxy { avg } ==> (i64::MIN <= average->0 <= i64::MAX
                ==> avg == average->0)
        }),
{
}

/// A badge carries the name, the latest count and the day of enrollment of its repo, and a line
/// exactly where it is measured.
pub proof fn law_a_badge_carries_what_was_read(
    b: RepoBadge,
    repo: TrackedRepo,
    latest: Option<Reading>,
    prior: Option<Reading>,
    series: Seq<SeriesView>,
    recent: Seq<Reading>,
    now: int,
)
    requires
        is_badge_of(b, repo, latest, prior, series, recent, now),
    ensures
        b.full_name@ == repo.full_name@,
        latest matches Some(l) ==> b.stars == l.stars,
        latest is None ==> b.stars == 0,
        byte_prefix(repo.enrolled_at@, 10) matches Some(day) ==> b.tracked_since@ == day,
        byte_prefix(repo.enrolled_at@, 10) is None ==> b.tracked_since@.len() == 0,
        b.state == state_of(repo, latest, prior, fleet(series), now),
        b.state is Measured ==> b.spark@ == spark_line(recent, now, card_region(), None),
        !(b.state is Measured) ==> b.spark@.len() == 0,
{
}

/// A row is hidden, paused or shown by the word that it has: only two words do anything.
pub proof fn law_two_words_take_a_repo_off(status: Seq<char>)
    ensures
        status_named(status) == Status::Inactive <==> status == "inactive"@,
        status_named(status) == Status::OptedOut <==> status == "opted_out"@,
        status_named(status) == Status::Active <==> status != "inactive"@ && status != "opted_out"@,
{
    reveal_strlit("inactive");
    reveal_strlit("opted_out");
    assert("inactive"@.len() == 8 && "opted_out"@.len() == 9);
}

/// A card prints the number that its row prints: the same rate and the same percentile, out of
/// the same readings and the same pool.
pub proof fn law_card_and_row_agree(
    repo: TrackedRepo,
    s: SeriesView,
    prior: int,
    pool: Seq<i64>,
    range: Option<u64>,
    now: int,
)
    requires
        repo.status == Status::Active,
        on_board(s),
        s.readings.len() > 0,
        cutoff_of(s.readings.last().ts@) is Some,
        last_by(s.readings, cutoff_of(s.readings.last().ts@)->0) == Some(prior),
        series_rate(s.readings) is Some,
    ensures
        state_of(repo, Some(s.readings.last()), Some(s.readings[prior]), pool, now)
            == (BadgeState::Measured {
            velocity: series_rate(s.readings)->0 as i64,
            top_percent: share_of(pool, series_rate(s.readings)->0),
        }),
        row_of(s, now, pool, range) matches Some(row) && row.velocity == (RowVelocity::Measured {
            per_day: series_rate(s.readings)->0 as i64,
            top_percent: share_of(pool, series_rate(s.readings)->0),
        }),
{
}

// ---------------------------------------------------------------- enrollment lanes

/// Which lane an enrollment is spending, and what the repo row will record.
#[derive(Debug, Clone, Copy, PartialEq, Eq, Structural)]
pub enum Lane {
    Embed,
    Manual,
}

/// The name that a row records a lane by.
pub open spec fn lane_name(lane: Lane) -> Seq<char> {
    match lane {
        Lane::Embed => "embed"@,
        Lane::Manual => "manual"@,
    }
}

/// How many enrollments a lane grants in one day.
pub open spec fn lane_budget(lane: Lane) -> u32 {
    match lane {
        Lane::Embed => EMBED_DAILY_BUDGET,
        Lane::Manual => MANUAL_DAILY_BUDGET,
    }
}

impl Lane {
    pub fn name(self) -> (r: &'static str)
        ensures
            r@ == lane_name(self),
    {
        match self {
            Lane::Embed => "embed",
            Lane::Manual => "manual",
        }
    }

    pub fn daily_budget(self) -> (r: u32)
        ensures
            r == lane_budget(self),
    {
        match self {
            Lane::Embed => EMBED_DAILY_BUDGET,
            Lane::Manual => MANUAL_DAILY_BUDGET,
        }
    }
}

/// What counts as spent after one more attempt: a granted one counts, a refused one does not.
pub open spec fn after_attempt(spent: int, limit: int) -> int {
    if spent < limit {
        spent + 1
    } else {
        spent
    }
}

/// What one lane has spent on a day.
#[derive(Debug, Clone, PartialEq, Eq)]
pub struct Budget {
    pub date: String,
    pub spent: u32,
}

impl Budget {
    /// What counts as spent on a day: yesterday's spending is forgotten.
    pub open spec fn spent_on(self, day: Seq<char>) -> int {
        if self.date@ == day {
            self.spent as int
        } else {
            0
        }
    }

    /// A budget that nothing was spent of.
    pub fn fresh() -> (r: Budget)
        ensures
            r.date@ == Seq::<char>::empty(),
            r.spent == 0,
    {
        let date = String::new();
        assert(date@ =~= Seq::<char>::empty());
        Budget { date, spent: 0 }
    }

    fn spend(&mut self, limit: u32, today: &str) -> (r: bool)
        ensures
            r == (old(self).spent_on(today@) < limit),
            final(self).date@ == today@,
            final(self).spent == after_attempt(old(self).spent_on(today@), limit as int),
    {
        if !same(self.date.as_str(), today) {
            self.date = today.to_owned();
            self.spent = 0;
        }
        if self.spent >= limit {
            return false;
        }
        self.spent = self.spent + 1;
        true
    }
}

/// The budgets of both lanes. They are separate, so a busy README cannot eat the allowance
/// that the site form runs on.
#[derive(Debug, Clone, PartialEq, Eq)]
pub struct Budgets {
    pub embed: Budget,
    pub manual: Budget,
}

impl Budgets {
    /// The budget of a lane.
    pub open spec fn of(self, lane: Lane) -> Budget {
        match lane {
            Lane::Embed => self.embed,
            Lane::Manual => self.manual,
        }
    }

    pub fn fresh() -> (r: Budgets)
        ensures
            r.embed.spent == 0 && r.embed.date@ == Seq::<char>::empty(),
            r.manual.spent == 0 && r.manual.date@ == Seq::<char>::empty(),
    {
        Budgets { embed: Budget::fresh(), manual: Budget::fresh() }
    }

    /// Counts an enrollment attempt against its lane, or refuses once the day is spent.
    pub fn spend_enrollment(&mut self, lane: Lane, today: &str) -> (r: bool)
        ensures
            r == (old(self).of(lane).spent_on(today@) < lane_budget(lane)),
            final(self).of(lane).date@ == today@,
            final(self).of(lane).spent == after_attempt(
                old(self).of(lane).spent_on(today@),
                lane_budget(lane) as int,
            ),
            lane == Lane::Embed ==> final(self).manual == old(self).manual,
            lane == Lane::Manual ==> final(self).embed == old(self).embed,
    {
        match lane {
            Lane::Embed => self.embed.spend(lane.daily_budget(), today),
            Lane::Manual => self.manual.spend(lane.daily_budget(), today),
        }
    }
}

/// What counts as spent after so many attempts on one day.
pub open spec fn spent_after(spent: int, limit: int, attempts: nat) -> int
    decreases attempts,
{
    if attempts == 0 {
        spent
    } else {
        after_attempt(spent_after(spent, limit, (attempts - 1) as nat), limit)
    }
}

/// However often a lane is asked on one day, it grants its budget and no more, and it grants
/// every attempt while the budget lasts.
pub proof fn law_a_day_grants_its_budget(lane: Lane, attempts: nat)
    ensures
        spent_after(0, lane_budget(lane) as int, attempts) == if attempts < lane_budget(lane) {
            attempts as int
        } else {
            lane_budget(lane) as int
        },
    decreases attempts,
{
    if attempts > 0 {
        law_a_day_grants_its_budget(lane, (attempts - 1) as nat);
    }
}

/// A lane that is asked so often on one day grants 256 enrollments to READMEs and 64 to the form,
/// every one of them while they last, and what was spent on another day does not count.
pub proof fn law_lanes_grant_their_own_budget(budget: Budget, day: Seq<char>, attempts: nat)
    ensures
        budget.date@ != day ==> budget.spent_on(day) == 0,
        budget.date@ == day ==> budget.spent_on(day) == budget.spent,
        spent_after(0, lane_budget(Lane::Embed) as int, attempts) == if attempts < 256 {
            attempts as int
        } else {
            256
        },
        spent_after(0, lane_budget(Lane::Manual) as int, attempts) == if attempts < 64 {
            attempts as int
        } else {
            64
        },
{
    law_a_day_grants_its_budget(Lane::Embed, attempts);
    law_a_day_grants_its_budget(Lane::Manual, attempts);
}

/// What became of a repo nobody had tracked yet.
#[derive(Debug, Clone, PartialEq)]
pub enum Enrollment {
    Started(RepoBadge),
    /// Past the day's budget, or GitHub was unreachable: the name is parked and a later day
    /// enrolls it.
    Queued,
    /// Unknown, private, or opted out. No rows either way, nothing to retry.
    Nothing,
}

/// What GitHub said about a name.
#[derive(Debug, Clone, PartialEq, Eq)]
pub enum Answer {
    Found(Repo),
    Missing,
    Unreachable,
}

/// Where an enrollment stands, and so what is to be done next.
#[derive(Debug, Clone, PartialEq)]
pub enum Enrolling {
    /// Ask GitHub about the name. Nothing of ours is held up meanwhile.
    Asking,
    /// Look up whether this repo, by its id, opted out. A rename can hide an opted-out repo
    /// behind a name that was never seen: the numeric id is what decides.
    Checking(Repo),
    /// Write the repo's row and its first reading.
    Recording(Repo),
    /// Park the name for a later day.
    Parking,
    /// Nothing is left to do.
    Done(Enrollment),
}

/// What came of the step that was to be done.
#[derive(Debug, Clone, PartialEq, Eq)]
pub enum EnrollEvent {
    Answered(Answer),
    /// Whether the repo opted out; `None` where the lookup failed.
    OptedOut(Option<bool>),
    /// Whether the rows were written.
    Recorded(bool),
    /// The name was parked, or could not be.
    Parked,
}

/// The first step of an enrollment: a granted one asks, one past the day's budget is parked.
pub open spec fn first_step(granted: bool) -> Enrolling {
    if granted {
        Enrolling::Asking
    } else {
        Enrolling::Parking
    }
}

/// The first step of an enrollment.
pub fn enroll_start(granted: bool) -> (r: Enrolling)
    ensures
        r == first_step(granted),
{
    if granted {
        Enrolling::Asking
    } else {
        Enrolling::Parking
    }
}

/// The badge of a repo that was just enrolled.
pub open spec fn is_first_badge(b: RepoBadge, repo: Repo, now: int) -> bool {
    &&& b.full_name@ == repo.full_name@
    &&& b.stars == repo.stargazers_count
    &&& b.tracked_since@ == date_of(now)
    &&& b.state == BadgeState::Enrolled
    &&& b.spark@ == Seq::<Point>::empty()
}

/// The step that follows one. An answer that belongs to another step changes nothing.
pub open spec fn enrolls(state: Enrolling, event: EnrollEvent, now: int, next: Enrolling) -> bool {
    match (state, event) {
        (Enrolling::Asking, EnrollEvent::Answered(Answer::Found(repo))) => next
            == Enrolling::Checking(repo),
        (Enrolling::Asking, EnrollEvent::Answered(Answer::Missing)) => next == Enrolling::Done(
            Enrollment::Nothing,
        ),
        (Enrolling::Asking, EnrollEvent::Answered(Answer::Unreachable)) => next
            == Enrolling::Parking,
        (Enrolling::Checking(repo), EnrollEvent::OptedOut(opted_out)) => next == if opted_out
            == Some(false) {
            Enrolling::Recording(repo)
        } else {
            Enrolling::Done(Enrollment::Nothing)
        },
        (Enrolling::Recording(repo), EnrollEvent::Recorded(written)) => if written {
            next matches Enrolling::Done(Enrollment::Started(badge)) && is_first_badge(
                badge,
                repo,
                now,
            )
        } else {
            next == Enrolling::Done(Enrollment::Nothing)
        },
        (Enrolling::Parking, EnrollEvent::Parked) => next == Enrolling::Done(Enrollment::Queued),
        _ => next == state,
    }
}

/// The first request for an untracked repo is what enrolls it, whichever lane it arrived
/// through: a README loading its badge, or a name typed on the site. GitHub being out never
/// becomes a broken image: the name is parked and tried again tomorrow.
pub fn enroll(state: Enrolling, event: EnrollEvent, now: i64) -> (r: Enrolling)
    ensures
        enrolls(state, event, now as int, r),
{
    match (state, event) {
        (Enrolling::Asking, EnrollEvent::Answered(answer)) => match answer {
            Answer::Found(repo) => Enrolling::Checking(repo),
            Answer::Missing => Enrolling::Done(Enrollment::Nothing),
            Answer::Unreachable => Enrolling::Parking,
        },
        (Enrolling::Checking(repo), EnrollEvent::OptedOut(opted_out)) => match opted_out {
            Some(false) => Enrolling::Recording(repo),
            _ => Enrolling::Done(Enrollment::Nothing),
        },
        (Enrolling::Recording(repo), EnrollEvent::Recorded(written)) => {
            if written {
                let spark: Vec<Point> = Vec::new();
                assert(spark@ =~= Seq::<Point>::empty());
                Enrolling::Done(
                    Enrollment::Started(
                        RepoBadge {
                            full_name: repo.full_name,
                            stars: repo.stargazers_count,
                            tracked_since: date_utc(now),
                            state: BadgeState::Enrolled,
                            spark,
                        },
                    ),
                )
            } else {
                Enrolling::Done(Enrollment::Nothing)
            }
        },
        (Enrolling::Parking, EnrollEvent::Parked) => Enrolling::Done(Enrollment::Queued),
        (state, _) => state,
    }
}

/// Whether an event is the answer to the step that was to be done.
pub open spec fn answers(state: Enrolling, event: EnrollEvent) -> bool {
    match state {
        Enrolling::Asking => event is Answered,
        Enrolling::Checking(_) => event is OptedOut,
        Enrolling::Recording(_) => event is Recorded,
        Enrolling::Parking => event is Parked,
        Enrolling::Done(_) => false,
    }
}

/// How many steps an enrollment can still take.
pub open spec fn steps_left(state: Enrolling) -> nat {
    match state {
        Enrolling::Asking => 3,
        Enrolling::Checking(_) => 2,
        Enrolling::Recording(_) => 1,
        Enrolling::Parking => 1,
        Enrolling::Done(_) => 0,
    }
}

/// Every answer brings an enrollment nearer to its end, which is three steps away at most.
pub proof fn law_enrollments_end(state: Enrolling, event: EnrollEvent, now: int, next: Enrolling)
    requires
        answers(state, event),
        enrolls(state, event, now, next),
    ensures
        steps_left(next) < steps_left(state),
        steps_left(state) <= 3,
        steps_left(next) == 0 <==> next is Done,
{
}

/// A repo that GitHub knows, that did not opt out and whose rows were written is enrolled, and
/// its first badge has its name, its count and the day; rows that could not be written are no
/// enrollment.
pub proof fn law_a_public_repo_gets_enrolled(
    repo: Repo,
    now: int,
    asked: Enrolling,
    cleared: Enrolling,
    written: Enrolling,
    unwritten: Enrolling,
)
    requires
        enrolls(first_step(true), EnrollEvent::Answered(Answer::Found(repo)), now, asked),
        enrolls(asked, EnrollEvent::OptedOut(Some(false)), now, cleared),
        enrolls(cleared, EnrollEvent::Recorded(true), now, written),
        enrolls(cleared, EnrollEvent::Recorded(false), now, unwritten),
    ensures
        asked == Enrolling::Checking(repo),
        cleared == Enrolling::Recording(repo),
        unwritten == Enrolling::Done(Enrollment::Nothing),
        written matches Enrolling::Done(Enrollment::Started(b)) && b.full_name@ == repo.full_name@
            && b.stars == repo.stargazers_count && b.tracked_since@ == date_of(now) && b.state
            == BadgeState::Enrolled && b.spark@.len() == 0,
{
}

/// A request past the budget asks nobody: it is parked, and ends as queued.
pub proof fn law_a_spent_day_parks(now: int, parked: Enrolling)
    requires
        enrolls(first_step(false), EnrollEvent::Parked, now, parked),
    ensures
        first_step(false) == Enrolling::Parking,
        parked == Enrolling::Done(Enrollment::Queued),
{
}

/// An answer that does not belong to the step leaves an enrollment where it stands.
pub proof fn law_stray_answers_change_nothing(
    state: Enrolling,
    event: EnrollEvent,
    now: int,
    next: Enrolling,
)
    requires
        enrolls(state, event, now, next),
        state is Asking ==> !(event is Answered),
        state is Checking ==> !(event is OptedOut),
        state is Recording ==> !(event is Recorded),
        state is Parking ==> !(event is Parked),
    ensures
        next == state,
{
}

/// A repo is recorded only after the lookup of its own id said that it did not opt out. A
/// lookup that failed counts as an opt-out.
pub proof fn law_only_a_clear_lookup_records(
    state: Enrolling,
    event: EnrollEvent,
    now: int,
    next: Enrolling,
    repo: Repo,
)
    requires
        enrolls(state, event, now, next),
        next == Enrolling::Recording(repo),
        state != next,
    ensures
        state == Enrolling::Checking(repo),
        event == EnrollEvent::OptedOut(Some(false)),
{
}

/// A repo that opted out leaves its enrollment the way a name that nobody knows does.
pub proof fn law_opted_out_looks_like_missing(
    repo: Repo,
    now: int,
    after_lookup: Enrolling,
    after_answer: Enrolling,
)
    requires
        enrolls(
            Enrolling::Checking(repo),
            EnrollEvent::OptedOut(Some(true)),
            now,
            after_lookup,
        ),
        enrolls(Enrolling::Asking, EnrollEvent::Answered(Answer::Missing), now, after_answer),
    ensures
        after_lookup == after_answer,
        after_lookup == Enrolling::Done(Enrollment::Nothing),
{
}

/// A request that is past the budget, or that GitHub did not answer, is parked and ends as
/// queued: it is never dropped.
pub proof fn law_overflow_and_outages_are_parked(now: int, outage: Enrolling, parked: Enrolling)
    requires
        enrolls(Enrolling::Asking, EnrollEvent::Answered(Answer::Unreachable), now, outage),
        enrolls(outage, EnrollEvent::Parked, now, parked),
    ensures
        outage == Enrolling::Parking,
        parked == Enrolling::Done(Enrollment::Queued),
{
}

// ---------------------------------------------------------------- resolving a badge

/// What the store says about a name.
#[derive(Debug, Clone, PartialEq, Eq)]
pub enum Lookup {
    /// The store could not be read.
    Failed,
    Absent,
    Found(TrackedRepo),
}

/// What the store holds that a badge is built from. The fleet and the recent readings are read
/// only where the badge is measured.
#[derive(Debug, Clone, PartialEq, Eq)]
pub struct Held {
    pub latest: Option<Reading>,
    /// The last reading that lies far enough back from the latest.
    pub prior: Option<Reading>,
    pub series: Vec<Series>,
    pub recent: Vec<Reading>,
    /// Every reading, oldest first, where the shape that was asked for is drawn from them.
    pub all: Option<Vec<Reading>>,
}

/// What the whole series of a repo says.
#[derive(Debug, Clone, PartialEq, Eq)]
pub struct Record {
    /// The highest day that was ever measured, with its date.
    pub peak: Option<(i64, String)>,
    /// The series as it is drawn.
    pub line: Vec<Point>,
}

/// What a badge is drawn from. The record is there where all readings were read.
#[derive(Debug, Clone, PartialEq)]
pub struct Portrait {
    pub badge: RepoBadge,
    pub record: Option<Record>,
}

impl Portrait {
    pub open spec fn peak(self) -> Option<(int, Seq<char>)> {
        match self.record {
            Some(record) => opt_peak(record.peak),
            None => None,
        }
    }

    pub open spec fn line(self) -> Seq<Point> {
        match self.record {
            Some(record) => record.line@,
            None => Seq::empty(),
        }
    }
}

/// The portrait of a tracked repo, out of what the store holds of it.
pub open spec fn is_portrait_of(p: Portrait, repo: TrackedRepo, held: Held, now: int) -> bool {
    &&& is_badge_of(
        p.badge,
        repo,
        held.latest,
        held.prior,
        series_views(held.series@),
        held.recent@,
        now,
    )
    &&& p.record is Some <==> held.all is Some
    &&& held.all matches Some(all) ==> {
        &&& p.peak() == peak_of(all@)
        &&& p.line() == history_line(all@, history_region())
    }
}

fn portray(repo: &TrackedRepo, held: &Held, now: i64) -> (r: Portrait)
    requires
        now - SPARK_WINDOW >= i64::MIN,
    ensures
        is_portrait_of(r, *repo, *held, now as int),
        r.badge.state.wf(),
{
    let badge = build(
        repo,
        held.latest.as_ref(),
        held.prior.as_ref(),
        &held.series,
        &held.recent,
        now,
    );
    let record = match &held.all {
        Some(all) => Some(Record { peak: peak(all), line: history_points(all, &history_spark()) }),
        None => None,
    };
    Portrait { badge, record }
}

/// A measured repo has a peak, which is no lower than the rate that its badge prints.
pub proof fn law_the_peak_is_no_lower_than_the_rate(
    repo: TrackedRepo,
    held: Held,
    p: Portrait,
    prior: int,
    now: int,
)
    requires
        is_portrait_of(p, repo, held, now),
        p.badge.state is Measured,
        held.all matches Some(all) && all@.len() > 0 && held.latest == Some(all@.last())
            && cutoff_of(all@.last().ts@) is Some && last_by(
            all@,
            cutoff_of(all@.last().ts@)->0,
        ) == Some(prior) && held.prior == Some(all@[prior]),
    ensures
        p.badge.state matches BadgeState::Measured { velocity, .. } && p.peak() matches Some(best)
            && velocity <= best.0,
{
    lemma_series_rate_fits(held.all->0@);
}

/// Where a badge request stands, and so what is to be done next.
#[derive(Debug, Clone, PartialEq)]
pub enum Resolving {
    /// Look the name up in the store.
    LookingUp,
    /// Read what the store holds of this repo.
    Gathering(TrackedRepo),
    /// Spend one of the embed lane's enrollments.
    Spending,
    /// Do what the enrollment of the name asks for.
    Enrolling(Enrolling),
    /// Nothing is left to do: this is what the badge is drawn from, or there is none.
    Done(Option<Portrait>),
}

/// What came of the step that was to be done.
#[derive(Debug, Clone, PartialEq, Eq)]
pub enum ResolveEvent {
    LookedUp(Lookup),
    /// `None` where the store could not be read.
    Gathered(Option<Held>),
    /// Whether the day's budget had one left.
    Spent(bool),
    Enrolled(EnrollEvent),
}

/// The first step of a badge request. Junk reaches neither GitHub nor the store.
pub open spec fn first_resolving(name: Seq<char>) -> Resolving {
    if full_name_allowed(name) {
        Resolving::LookingUp
    } else {
        Resolving::Done(None)
    }
}

/// The first step of a badge request.
pub fn resolve_start(full_name: &str) -> (r: Resolving)
    ensures
        r == first_resolving(full_name@),
        r.wf(),
{
    if valid_full_name(full_name) {
        Resolving::LookingUp
    } else {
        Resolving::Done(None)
    }
}

/// What an enrollment leaves to draw, where it leaves anything: a repo that was just enrolled
/// has no record yet.
pub open spec fn badge_left(enrollment: Enrollment) -> Option<Portrait> {
    match enrollment {
        Enrollment::Started(badge) => Some(Portrait { badge, record: None }),
        _ => None,
    }
}

/// A badge request whose enrollment stands at a step.
pub open spec fn resolving_at(step: Enrolling) -> Resolving {
    match step {
        Enrolling::Done(enrollment) => Resolving::Done(badge_left(enrollment)),
        step => Resolving::Enrolling(step),
    }
}

/// The step of a badge request that follows one. An opted-out repo reads exactly like one that
/// was never seen. Not paused: paused says that we are still watching and cannot see, which is
/// not what a maintainer who asked us to stop agreed to. An answer that belongs to another step
/// changes nothing.
pub open spec fn resolves(state: Resolving, event: ResolveEvent, now: int, next: Resolving) -> bool {
    match (state, event) {
        (Resolving::LookingUp, ResolveEvent::LookedUp(lookup)) => next == match lookup {
            Lookup::Failed => Resolving::Done(None),
            Lookup::Absent => Resolving::Spending,
            Lookup::Found(repo) => if repo.status == Status::OptedOut {
                Resolving::Done(None)
            } else {
                Resolving::Gathering(repo)
            },
        },
        (Resolving::Gathering(repo), ResolveEvent::Gathered(Some(held))) => {
            &&& next matches Resolving::Done(Some(portrait))
            &&& is_portrait_of(portrait, repo, held, now)
        },
        (Resolving::Gathering(_), ResolveEvent::Gathered(None)) => next == Resolving::Done(None),
        (Resolving::Spending, ResolveEvent::Spent(granted)) => next == Resolving::Enrolling(
            first_step(granted),
        ),
        (Resolving::Enrolling(step), ResolveEvent::Enrolled(answer)) => exists|after: Enrolling|
            next == resolving_at(after) && #[trigger] enrolls(step, answer, now, after),
        _ => next == state,
    }
}

impl Resolving {
    /// An enrollment that is over is no step of a request, and a badge that a request ended
    /// with can be drawn.
    pub open spec fn wf(self) -> bool {
        match self {
            Resolving::Enrolling(step) => !(step is Done),
            Resolving::Done(Some(portrait)) => portrait.badge.state.wf(),
            _ => true,
        }
    }
}

/// The step of a badge request that follows one.
pub fn resolve(state: Resolving, event: ResolveEvent, now: i64) -> (r: Resolving)
    requires
        now - SPARK_WINDOW >= i64::MIN,
        state.wf(),
    ensures
        resolves(state, event, now as int, r),
        r.wf(),
{
    match (state, event) {
        (Resolving::LookingUp, ResolveEvent::LookedUp(lookup)) => match lookup {
            Lookup::Failed => Resolving::Done(None),
            Lookup::Absent => Resolving::Spending,
            Lookup::Found(repo) => match repo.status {
                Status::OptedOut => Resolving::Done(None),
                _ => Resolving::Gathering(repo),
            },
        },
        (Resolving::Gathering(repo), ResolveEvent::Gathered(held)) => match held {
            Some(held) => Resolving::Done(Some(portray(&repo, &held, now))),
            None => Resolving::Done(None),
        },
        (Resolving::Spending, ResolveEvent::Spent(granted)) => Resolving::Enrolling(
            enroll_start(granted),
        ),
        (Resolving::Enrolling(step), ResolveEvent::Enrolled(answer)) => {
            let after = enroll(step, answer, now);
            match after {
                Enrolling::Done(Enrollment::Started(badge)) => Resolving::Done(
                    Some(Portrait { badge, record: None }),
                ),
                Enrolling::Done(_) => Resolving::Done(None),
                after => Resolving::Enrolling(after),
            }
        },
        (state, _) => state,
    }
}

/// Whether states and events are the course of a badge request for a name.
pub open spec fn resolving_course(
    name: Seq<char>,
    states: Seq<Resolving>,
    events: Seq<ResolveEvent>,
    now: int,
) -> bool {
    &&& states.len() == events.len() + 1
    &&& states[0] == first_resolving(name)
    &&& forall|k: int|
        0 <= k < events.len() ==> resolves(states[k], #[trigger] events[k], now, states[k + 1])
}

/// Whether the store said, among the first so many events, that it holds no such name.
pub open spec fn was_absent(events: Seq<ResolveEvent>, n: int) -> bool {
    exists|k: int|
        0 <= k < n && k < events.len() && #[trigger] events[k] == ResolveEvent::LookedUp(
            Lookup::Absent,
        )
}

/// What is shown is answered from the store. A request comes to spend a budget, to ask GitHub
/// or to write a row only for a well-formed name that the store said it does not hold; a name
/// that is junk is looked up by nobody.
pub proof fn law_only_unseen_names_reach_github(
    name: Seq<char>,
    states: Seq<Resolving>,
    events: Seq<ResolveEvent>,
    now: int,
    n: int,
)
    requires
        resolving_course(name, states, events, now),
        0 <= n < states.len(),
    ensures
        states[n] is Spending || states[n] is Enrolling ==> full_name_allowed(name) && was_absent(
            events,
            n,
        ),
        states[n] is LookingUp || states[n] is Gathering ==> full_name_allowed(name),
        !full_name_allowed(name) ==> states[n] == Resolving::Done(None),
    decreases n,
{
    if n > 0 {
        law_only_unseen_names_reach_github(name, states, events, now, n - 1);
        let event = events[n - 1];
        assert(resolves(states[n - 1], event, now, states[n]));
        if was_absent(events, n - 1) {
            let k = choose|k: int|
                0 <= k < n - 1 && k < events.len() && #[trigger] events[k]
                    == ResolveEvent::LookedUp(Lookup::Absent);
            assert(was_absent(events, n)) by {
                assert(events[k] == ResolveEvent::LookedUp(Lookup::Absent));
            }
        }
        if states[n] is Spending && !(states[n - 1] is Spending) {
            assert(event == ResolveEvent::LookedUp(Lookup::Absent));
            assert(was_absent(events, n)) by {
                assert(events[n - 1] == ResolveEvent::LookedUp(Lookup::Absent));
            }
        }
    }
}

/// A repo that the store has is drawn from what the store holds of it, and the course of its
/// request ends there.
pub proof fn law_a_tracked_repo_is_drawn_from_the_store(
    repo: TrackedRepo,
    held: Held,
    now: int,
    found: Resolving,
    drawn: Resolving,
    unread: Resolving,
)
    requires
        repo.status != Status::OptedOut,
        resolves(
            Resolving::LookingUp,
            ResolveEvent::LookedUp(Lookup::Found(repo)),
            now,
            found,
        ),
        resolves(found, ResolveEvent::Gathered(Some(held)), now, drawn),
        resolves(found, ResolveEvent::Gathered(None), now, unread),
    ensures
        found == Resolving::Gathering(repo),
        unread == Resolving::Done(None),
        drawn matches Resolving::Done(Some(p)) && is_badge_of(
            p.badge,
            repo,
            held.latest,
            held.prior,
            series_views(held.series@),
            held.recent@,
            now,
        ) && (held.all matches Some(all) ==> p.peak() == peak_of(all@) && p.line() == history_line(
            all@,
            history_region(),
        )) && (held.all is None ==> p.peak() is None && p.line().len() == 0),
{
}

/// A name that the store does not have spends one of the embed lane's enrollments: a granted one
/// asks GitHub, a refused one is parked, and a repo that was enrolled is drawn as one that was.
pub proof fn law_an_unseen_name_is_enrolled_by_its_badge(
    repo: Repo,
    now: int,
    absent: Resolving,
    granted: Resolving,
    refused: Resolving,
    parked: Resolving,
    written: Resolving,
)
    requires
        resolves(Resolving::LookingUp, ResolveEvent::LookedUp(Lookup::Absent), now, absent),
        resolves(absent, ResolveEvent::Spent(true), now, granted),
        resolves(absent, ResolveEvent::Spent(false), now, refused),
        resolves(refused, ResolveEvent::Enrolled(EnrollEvent::Parked), now, parked),
        resolves(
            Resolving::Enrolling(Enrolling::Recording(repo)),
            ResolveEvent::Enrolled(EnrollEvent::Recorded(true)),
            now,
            written,
        ),
    ensures
        absent == Resolving::Spending,
        granted == Resolving::Enrolling(Enrolling::Asking),
        refused == Resolving::Enrolling(Enrolling::Parking),
        parked == Resolving::Done(None),
        written matches Resolving::Done(Some(p)) && p.badge.full_name@ == repo.full_name@
            && p.badge.stars == repo.stargazers_count && p.badge.tracked_since@ == date_of(now)
            && p.badge.state == BadgeState::Enrolled && p.record is None,
{
}

/// The image that a request gets, and for how long it may be kept. A tracked repo's name came
/// back from GitHub and is already legal; the one in the URL is whatever was typed at us, and
/// only the untracked badge prints it, cleaned.
pub open spec fn rendered(
    name: Seq<char>,
    portrait: Option<Portrait>,
    shape: Shape,
    fonts: Fonts,
) -> (Seq<char>, u32) {
    match portrait {
        Some(p) => (
            match shape {
                Shape::Pill(cut) => pill_cut_of(p.badge, cut, fonts),
                Shape::Peak(cut) => peak_cut_of(p.badge, p.peak(), cut, fonts),
                Shape::Card(theme) => card_of(p.badge, theme, fonts),
                Shape::History(theme) => history_of(p.badge, p.line(), theme, fonts),
            },
            age_of(p.badge.state),
        ),
        None => (
            match shape {
                Shape::Pill(cut) => not_tracked_cut_of(shown_name(name), cut, fonts),
                Shape::Peak(cut) => not_tracked_cut_of(shown_name(name), cut, fonts),
                Shape::Card(theme) => not_tracked_card_of(shown_name(name), theme),
                Shape::History(theme) => not_tracked_history_of(shown_name(name), theme),
            },
            FRESH_MAX_AGE,
        ),
    }
}

/// The image that a request gets, and for how long it may be kept.
pub fn render(name: &str, portrait: &Option<Portrait>, shape: Shape, fonts: &Fonts) -> (r: (
    String,
    u32,
))
    requires
        portrait matches Some(p) ==> p.badge.state.wf(),
    ensures
        (r.0@, r.1) == rendered(name@, *portrait, shape, *fonts),
{
    match portrait {
        Some(p) => {
            let svg = match shape {
                Shape::Pill(cut) => pill_cut(&p.badge, cut, fonts),
                Shape::Peak(cut) => match &p.record {
                    Some(record) => peak_cut(&p.badge, &record.peak, cut, fonts),
                    None => peak_cut(&p.badge, &None, cut, fonts),
                },
                Shape::Card(theme) => card(&p.badge, theme, fonts),
                Shape::History(theme) => match &p.record {
                    Some(record) => history(&p.badge, &record.line, theme, fonts),
                    None => {
                        let none: Vec<Point> = Vec::new();
                        assert(none@ =~= Seq::<Point>::empty());
                        history(&p.badge, &none, theme, fonts)
                    },
                },
            };
            (svg, max_age_for(p.badge.state))
        },
        None => {
            let shown = display_name(name);
            let svg = match shape {
                Shape::Pill(cut) => not_tracked_cut(shown.as_str(), cut, fonts),
                Shape::Peak(cut) => not_tracked_cut(shown.as_str(), cut, fonts),
                Shape::Card(theme) => not_tracked_card(shown.as_str(), theme),
                Shape::History(theme) => not_tracked_history(shown.as_str(), theme),
            };
            (svg, FRESH_MAX_AGE)
        },
    }
}

/// The image of a repo that opted out is, to the byte, the image of a name that GitHub does not
/// know. The store's row decides it without asking GitHub; where a rename hides the row, the
/// lookup of the id decides it.
pub proof fn law_opted_out_badges_read_as_never_tracked(
    name: Seq<char>,
    hidden: TrackedRepo,
    renamed: Repo,
    now: int,
    by_name: Resolving,
    by_id: Resolving,
    unknown: Resolving,
    shape: Shape,
    fonts: Fonts,
)
    requires
        hidden.status == Status::OptedOut,
        resolves(
            Resolving::LookingUp,
            ResolveEvent::LookedUp(Lookup::Found(hidden)),
            now,
            by_name,
        ),
        resolves(
            Resolving::Enrolling(Enrolling::Checking(renamed)),
            ResolveEvent::Enrolled(EnrollEvent::OptedOut(Some(true))),
            now,
            by_id,
        ),
        resolves(
            Resolving::Enrolling(Enrolling::Asking),
            ResolveEvent::Enrolled(EnrollEvent::Answered(Answer::Missing)),
            now,
            unknown,
        ),
    ensures
        by_name == unknown,
        by_id == unknown,
        unknown matches Resolving::Done(portrait) && rendered(name, portrait, shape, fonts)
            == rendered(name, None, shape, fonts),
{
}

// ---------------------------------------------------------------- the manual lane

/// What the site says back about a submitted repo.
#[derive(Debug, Clone, PartialEq, Eq)]
pub enum Outcome {
    /// Whatever was typed is not a repo name at all.
    Malformed,
    Tracking { full_name: String, fresh: bool },
    Queued { full_name: String },
    /// No public repo by that name, or its maintainer opted out. One outcome for both, because
    /// an opted-out repo must not be distinguishable from a repo that was never there.
    Nothing { full_name: String },
}

/// What an outcome says.
pub enum OutcomeView {
    Malformed,
    Tracking { full_name: Seq<char>, fresh: bool },
    Queued { full_name: Seq<char> },
    Nothing { full_name: Seq<char> },
}

impl View for Outcome {
    type V = OutcomeView;

    open spec fn view(&self) -> OutcomeView {
        match *self {
            Outcome::Malformed => OutcomeView::Malformed,
            Outcome::Tracking { full_name, fresh } => OutcomeView::Tracking {
                full_name: full_name@,
                fresh,
            },
            Outcome::Queued { full_name } => OutcomeView::Queued { full_name: full_name@ },
            Outcome::Nothing { full_name } => OutcomeView::Nothing { full_name: full_name@ },
        }
    }
}

/// Where a submission stands, and so what is to be done next.
#[derive(Debug, Clone, PartialEq)]
pub enum Submitting {
    /// Look the name up in the store.
    LookingUp,
    /// Spend one of the manual lane's enrollments.
    Spending,
    /// Do what the enrollment of the name asks for.
    Enrolling(Enrolling),
    /// Nothing is left to do: this is what the site says back.
    Done(Outcome),
}

/// What came of the step that was to be done.
#[derive(Debug, Clone, PartialEq, Eq)]
pub enum SubmitEvent {
    LookedUp(Lookup),
    /// Whether the day's budget had one left.
    Spent(bool),
    Enrolled(EnrollEvent),
}

/// A submission: the name in what was typed, and where it stands.
#[derive(Debug, Clone, PartialEq)]
pub struct Submission {
    pub full_name: String,
    pub step: Submitting,
}

/// What a submission comes to once its name went through enrollment.
pub open spec fn outcome_of(name: Seq<char>, enrollment: Enrollment) -> OutcomeView {
    match enrollment {
        Enrollment::Started(badge) => OutcomeView::Tracking {
            full_name: badge.full_name@,
            fresh: true,
        },
        Enrollment::Queued => OutcomeView::Queued { full_name: name },
        Enrollment::Nothing => OutcomeView::Nothing { full_name: name },
    }
}

/// Whether a submission ended with an outcome.
pub open spec fn ended(step: Submitting, outcome: OutcomeView) -> bool {
    step matches Submitting::Done(said) && said@ == outcome
}

/// The step of a submission that follows one. A repo that is already ours spends no budget,
/// asks GitHub nothing and writes nothing. An answer that belongs to another step changes
/// nothing.
pub open spec fn submits(
    name: Seq<char>,
    state: Submitting,
    event: SubmitEvent,
    now: int,
    next: Submitting,
) -> bool {
    match (state, event) {
        (Submitting::LookingUp, SubmitEvent::LookedUp(lookup)) => match lookup {
            Lookup::Failed => ended(next, OutcomeView::Nothing { full_name: name }),
            Lookup::Absent => next == Submitting::Spending,
            Lookup::Found(repo) => if repo.status == Status::OptedOut {
                ended(next, OutcomeView::Nothing { full_name: name })
            } else {
                ended(next, OutcomeView::Tracking { full_name: repo.full_name@, fresh: false })
            },
        },
        (Submitting::Spending, SubmitEvent::Spent(granted)) => next == Submitting::Enrolling(
            first_step(granted),
        ),
        (Submitting::Enrolling(step), SubmitEvent::Enrolled(answer)) => exists|after: Enrolling|
            #[trigger] enrolls(step, answer, now, after) && match after {
                Enrolling::Done(enrollment) => ended(next, outcome_of(name, enrollment)),
                after => next == Submitting::Enrolling(after),
            },
        _ => next == state,
    }
}

impl Submission {
    /// A submission at its beginning. What is not a repo name at all is told so, and nobody is
    /// asked about it.
    pub fn start(raw: &str) -> (r: Submission)
        ensures
            match pasted_name(raw@) {
                Some(name) => r.full_name@ == name && r.step == Submitting::LookingUp,
                None => r.full_name@ == Seq::<char>::empty() && ended(
                    r.step,
                    OutcomeView::Malformed,
                ),
            },
    {
        match repo_name(raw) {
            Some(full_name) => Submission { full_name, step: Submitting::LookingUp },
            None => {
                let full_name = String::new();
                assert(full_name@ =~= Seq::<char>::empty());
                Submission { full_name, step: Submitting::Done(Outcome::Malformed) }
            },
        }
    }

    /// The submission after what was to be done was done.
    pub fn submit(self, event: SubmitEvent, now: i64) -> (r: Submission)
        ensures
            r.full_name == self.full_name,
            submits(self.full_name@, self.step, event, now as int, r.step),
    {
        let full_name = self.full_name;
        let step = match (self.step, event) {
            (Submitting::LookingUp, SubmitEvent::LookedUp(lookup)) => match lookup {
                Lookup::Failed => nothing(full_name.as_str()),
                Lookup::Absent => Submitting::Spending,
                Lookup::Found(repo) => match repo.status {
                    Status::OptedOut => nothing(full_name.as_str()),
                    _ => Submitting::Done(
                        Outcome::Tracking { full_name: repo.full_name, fresh: false },
                    ),
                },
            },
            (Submitting::Spending, SubmitEvent::Spent(granted)) => Submitting::Enrolling(
                enroll_start(granted),
            ),
            (Submitting::Enrolling(step), SubmitEvent::Enrolled(answer)) => {
                let after = enroll(step, answer, now);
                match after {
                    Enrolling::Done(Enrollment::Started(badge)) => Submitting::Done(
                        Outcome::Tracking { full_name: badge.full_name, fresh: true },
                    ),
                    Enrolling::Done(Enrollment::Queued) => Submitting::Done(
                        Outcome::Queued { full_name: full_name.as_str().to_owned() },
                    ),
                    Enrolling::Done(Enrollment::Nothing) => nothing(full_name.as_str()),
                    after => Submitting::Enrolling(after),
                }
            },
            (step, _) => step,
        };
        Submission { full_name, step }
    }
}

fn nothing(full_name: &str) -> (r: Submitting)
    ensures
        ended(r, OutcomeView::Nothing { full_name: full_name@ }),
{
    Submitting::Done(Outcome::Nothing { full_name: full_name.to_owned() })
}

/// What the form says back: of a repo that is ours that it is tracked, of one that was just
/// enrolled that it is tracked from now on, under the name that GitHub gave it, and of one that
/// was parked that it waits.
pub proof fn law_the_form_says_what_became_of_a_name(
    name: Seq<char>,
    held: TrackedRepo,
    repo: Repo,
    now: int,
    ours: Submitting,
    absent: Submitting,
    granted: Submitting,
    refused: Submitting,
    parked: Submitting,
    written: Submitting,
)
    requires
        held.status != Status::OptedOut,
        submits(
            name,
            Submitting::LookingUp,
            SubmitEvent::LookedUp(Lookup::Found(held)),
            now,
            ours,
        ),
        submits(
            name,
            Submitting::LookingUp,
            SubmitEvent::LookedUp(Lookup::Absent),
            now,
            absent,
        ),
        submits(name, absent, SubmitEvent::Spent(true), now, granted),
        submits(name, absent, SubmitEvent::Spent(false), now, refused),
        submits(name, refused, SubmitEvent::Enrolled(EnrollEvent::Parked), now, parked),
        submits(
            name,
            Submitting::Enrolling(Enrolling::Recording(repo)),
            SubmitEvent::Enrolled(EnrollEvent::Recorded(true)),
            now,
            written,
        ),
    ensures
        ours matches Submitting::Done(said) && said@ == (OutcomeView::Tracking {
            full_name: held.full_name@,
            fresh: false,
        }),
        granted == Submitting::Enrolling(Enrolling::Asking),
        refused == Submitting::Enrolling(Enrolling::Parking),
        parked matches Submitting::Done(said) && said@ == (OutcomeView::Queued { full_name: name }),
        written matches Submitting::Done(said) && said@ == (OutcomeView::Tracking {
            full_name: repo.full_name@,
            fresh: true,
        }),
{
}

/// On the form too, a repo that opted out is told apart neither from one that is not there nor
/// from one whose id opted out under another name.
pub proof fn law_submissions_do_not_tell_opt_outs(
    name: Seq<char>,
    hidden: TrackedRepo,
    renamed: Repo,
    now: int,
    by_name: Submitting,
    by_id: Submitting,
    unknown: Submitting,
)
    requires
        hidden.status == Status::OptedOut,
        submits(
            name,
            Submitting::LookingUp,
            SubmitEvent::LookedUp(Lookup::Found(hidden)),
            now,
            by_name,
        ),
        submits(
            name,
            Submitting::Enrolling(Enrolling::Checking(renamed)),
            SubmitEvent::Enrolled(EnrollEvent::OptedOut(Some(true))),
            now,
            by_id,
        ),
        submits(
            name,
            Submitting::Enrolling(Enrolling::Asking),
            SubmitEvent::Enrolled(EnrollEvent::Answered(Answer::Missing)),
            now,
            unknown,
        ),
    ensures
        ended(by_name, OutcomeView::Nothing { full_name: name }),
        ended(by_id, OutcomeView::Nothing { full_name: name }),
        ended(unknown, OutcomeView::Nothing { full_name: name }),
{
}

/// Whether states and events are the course of a submission of a name.
pub open spec fn submitting_course(
    name: Seq<char>,
    states: Seq<Submitting>,
    events: Seq<SubmitEvent>,
    now: int,
) -> bool {
    &&& states.len() == events.len() + 1
    &&& states[0] == Submitting::LookingUp
    &&& forall|k: int|
        0 <= k < events.len() ==> submits(
            name,
            states[k],
            #[trigger] events[k],
            now,
            states[k + 1],
        )
}

/// Whether the store said, among the first so many events, that it holds no such name.
pub open spec fn found_absent(events: Seq<SubmitEvent>, n: int) -> bool {
    exists|k: int|
        0 <= k < n && k < events.len() && #[trigger] events[k] == SubmitEvent::LookedUp(
            Lookup::Absent,
        )
}

/// A submission comes to spend a budget, to ask GitHub or to write a row only for a name that
/// the store said it does not hold.
pub proof fn law_only_unseen_submissions_reach_github(
    name: Seq<char>,
    states: Seq<Submitting>,
    events: Seq<SubmitEvent>,
    now: int,
    n: int,
)
    requires
        submitting_course(name, states, events, now),
        0 <= n < states.len(),
    ensures
        states[n] is Spending || states[n] is Enrolling ==> found_absent(events, n),
    decreases n,
{
    if n > 0 {
        law_only_unseen_submissions_reach_github(name, states, events, now, n - 1);
        let event = events[n - 1];
        assert(submits(name, states[n - 1], event, now, states[n]));
        if found_absent(events, n - 1) {
            let k = choose|k: int|
                0 <= k < n - 1 && k < events.len() && #[trigger] events[k] == SubmitEvent::LookedUp(
                    Lookup::Absent,
                );
            assert(found_absent(events, n)) by {
                assert(events[k] == SubmitEvent::LookedUp(Lookup::Absent));
            }
        }
        if states[n] is Spending && !(states[n - 1] is Spending) {
            assert(found_absent(events, n)) by {
                assert(events[n - 1] == SubmitEvent::LookedUp(Lookup::Absent));
            }
        }
    }
}

/// A name that the store holds costs a submission nothing: it ends with the first answer.
pub proof fn law_tracked_names_cost_no_budget(
    name: Seq<char>,
    repo: TrackedRepo,
    now: int,
    next: Submitting,
)
    requires
        submits(
            name,
            Submitting::LookingUp,
            SubmitEvent::LookedUp(Lookup::Found(repo)),
            now,
            next,
        ),
    ensures
        next is Done,
        repo.status != Status::OptedOut ==> ended(
            next,
            OutcomeView::Tracking { full_name: repo.full_name@, fresh: false },
        ),
{
}

} // verus!
