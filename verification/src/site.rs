//! The public HTML: the site page, the leaderboard, and what the form says back.
//!
//! Server-rendered, no client JS, one stylesheet inline. Every number on these pages is
//! formatted by the badge's own code, so a card's percentile and its row on the leaderboard
//! cannot disagree about the same repo.

use vstd::prelude::*;

#[allow(unused_imports)]
use crate::badge::{
    arrow, arrow_text, commas, commas_text, coord, coord_text, direction, direction_text, join, joined_points, percent,
    percent_text, point_texts, proxy_avg, proxy_text, rate, rate_text, Point, Share, STAR,
};
#[allow(unused_imports)]
use crate::board::{row_views, Board, BoardRow, RowVelocity, RowView, Sort};
#[allow(unused_imports)]
use crate::serve::{
    submits, Answer, EnrollEvent, Enrolling, Lookup, Outcome, OutcomeView, Status, SubmitEvent, Submitting,
    TrackedRepo, APRIL_2025_URL, FONT_URL, ICON_PNG_URL, ICON_SVG_URL, TOUCH_ICON_URL,
};
#[allow(unused_imports)]
use crate::text::{after, before, byte_prefix, byte_prefix_of, opt_text, same, split_once_at};

verus! {

pub const HOST: &'static str = "https://afterglow.watch";

pub const SOURCE_REPO: &'static str = "https://github.com/afterglowhq/afterglow";

pub const DESCRIPTION: &'static str = "Daily star snapshots for GitHub repos: a README badge with measured velocity, and a public leaderboard.";

/// Mona Sans carries the display type and nothing else; body text is the reader's own system
/// stack, which is already the voice of every page they read code on.
///
/// The form's two controls take --muted for a border where everything else takes --border. A
/// control is an edge somebody has to find, and --border is a rule between rows: quiet enough
/// to sit under text, too quiet to be a boundary.
pub const CSS: &'static str = r#"
@font-face {
  font-family: "Mona Sans";
  src: url("/static/mona-sans.woff2") format("woff2");
  font-weight: 200 900;
  font-display: swap;
}
:root {
  color-scheme: light dark;
  --canvas: #ffffff;
  --canvas-subtle: #f6f8fa;
  --border: #d0d7de;
  --fg: #1f2328;
  --muted: #59636e;
  --accent: #0969da;
  --green: #1a7f37;
  --gold: #eac54f;
  --spark: #d4a72c;
  --body: -apple-system, BlinkMacSystemFont, "Segoe UI", "Noto Sans", Helvetica, Arial, sans-serif;
  --mono: ui-monospace, SFMono-Regular, "SF Mono", Menlo, Consolas, monospace;
}
@media (prefers-color-scheme: dark) {
  :root {
    --canvas: #0d1117;
    --canvas-subtle: #21262d;
    --border: #30363d;
    --fg: #e6edf3;
    --muted: #8b949e;
    --accent: #58a6ff;
    --green: #3fb950;
    --gold: #e3b341;
    --spark: #e3b341;
  }
}
*, *::before, *::after { box-sizing: border-box; }
body {
  margin: 0;
  background: var(--canvas);
  color: var(--fg);
  font: 1rem/1.6 var(--body);
  -webkit-text-size-adjust: 100%;
}
.page { max-width: 52rem; margin: 0 auto; padding: 24px 16px 48px; }
h1, h2, .wordmark { font-family: "Mona Sans", var(--body); font-weight: 600; letter-spacing: -0.011em; }
h1 { font-size: 2rem; line-height: 1.2; margin: 0 0 8px; }
h2 { font-size: 1.125rem; margin: 32px 0 8px; }
p { margin: 0 0 12px; }
a { color: var(--accent); text-decoration: none; }
a:hover { text-decoration: underline; }
:focus-visible { outline: 2px solid var(--accent); outline-offset: 2px; }
.sr-only {
  position: absolute;
  width: 1px;
  height: 1px;
  padding: 0;
  margin: -1px;
  overflow: hidden;
  clip: rect(0, 0, 0, 0);
  white-space: nowrap;
  border: 0;
}
.lede { color: var(--muted); font-size: 1.0625rem; margin-bottom: 24px; }
.note { color: var(--muted); font-size: 0.875rem; }
code { font-family: var(--mono); font-size: 0.875em; }
pre {
  font-family: var(--mono);
  font-size: 0.8125rem;
  background: var(--canvas-subtle);
  border: 1px solid var(--border);
  border-radius: 6px;
  padding: 12px;
  margin: 0 0 12px;
  overflow-x: auto;
}
.masthead {
  display: flex;
  align-items: baseline;
  justify-content: space-between;
  gap: 16px;
  padding-bottom: 16px;
  margin-bottom: 24px;
  border-bottom: 1px solid var(--border);
}
.wordmark { font-size: 1.125rem; color: var(--fg); }
nav { display: flex; gap: 16px; }
.mark { height: 1.25rem; width: auto; margin-right: 8px; vertical-align: -0.3em; }
.mark .line { fill: none; stroke: var(--spark); stroke-width: 22; stroke-linecap: round; stroke-linejoin: round; }
.mark .glyph { fill: var(--gold); }
.sprite { position: absolute; width: 0; height: 0; overflow: hidden; }
stop { stop-color: var(--spark); }
.row {
  display: grid;
  grid-template-columns: 2.5rem minmax(0, 1fr) 100px 5.5rem 7.5rem 5.5rem;
  align-items: center;
  gap: 12px;
}
.head {
  padding-bottom: 8px;
  color: var(--muted);
  font-size: 0.75rem;
  letter-spacing: 0.04em;
}
.head a { color: inherit; }
.board { list-style: none; margin: 0; padding: 0; counter-reset: rank; }
.board li { counter-increment: rank; padding: 10px 0; border-top: 1px solid var(--border); }
.board li::before {
  content: counter(rank);
  color: var(--muted);
  text-align: right;
  font-variant-numeric: tabular-nums;
}
.num { text-align: right; font-variant-numeric: tabular-nums lining-nums; }
.c-repo { overflow: hidden; text-overflow: ellipsis; white-space: nowrap; }
.c-lang { color: var(--muted); font-size: 0.8125rem; margin-left: 8px; white-space: nowrap; }
.c-lang .dot { width: 8px; height: 8px; margin-right: 4px; }
.c-stars { display: flex; align-items: center; justify-content: flex-end; gap: 4px; }
.star { width: 12px; height: 12px; fill: var(--gold); flex: none; }
.gain { color: var(--green); font-weight: 600; }
.drop { color: var(--fg); font-weight: 600; }
.proxy { color: var(--muted); }
.c-pct { color: var(--muted); font-size: 0.8125rem; }
.spark polyline { fill: none; stroke: var(--spark); stroke-width: 1.5; }
form { display: flex; flex-wrap: wrap; gap: 8px; align-items: center; margin: 0 0 12px; }
label { flex-basis: 100%; margin-bottom: 4px; color: var(--muted); font-size: 0.875rem; }
input[type="text"] {
  flex: 1 1 18rem;
  min-width: 0;
  padding: 8px 12px;
  border: 1px solid var(--muted);
  border-radius: 6px;
  background: var(--canvas);
  color: var(--fg);
  font: inherit;
  font-size: 0.9375rem;
}
button {
  padding: 8px 16px;
  border: 1px solid var(--muted);
  border-radius: 6px;
  background: var(--canvas-subtle);
  color: var(--fg);
  font: inherit;
  font-size: 0.9375rem;
  font-weight: 600;
  cursor: pointer;
}
button:hover { border-color: var(--fg); }
.examples { display: flex; flex-wrap: wrap; align-items: flex-start; gap: 16px; margin: 16px 0; }
.examples img { max-width: 100%; height: auto; }
.attribution {
  margin-top: 48px;
  padding-top: 16px;
  border-top: 1px solid var(--border);
  color: var(--muted);
  font-size: 0.8125rem;
}
.attribution p { margin: 0 0 4px; }
.attribution a { color: inherit; }
@media (max-width: 40rem) {
  h1 { font-size: 1.625rem; }
  .row { grid-template-columns: 1.75rem minmax(0, 1fr) 4.75rem 6.25rem; gap: 8px; }
  .c-spark, .c-pct, .c-lang { display: none; }
}
"#;

/// What the site page says before its example line.
pub const INDEX_TOP: &'static str = r#"<h1>Star velocity, measured daily.</h1><p class="lede">Afterglow reads the public star count of every repo it tracks, once a day, and keeps every reading. The numbers come back as a README badge and as a leaderboard.</p><h2>What this is</h2><p>GitHub restricted stargazer lists on 30 June 2026, and star history went with them. Aggregate counts are still public, so those are what we snapshot, daily, and a snapshot is never deleted.</p><p>History cannot be backfilled. Nobody can go back and observe what a star count was last Tuesday, which is what makes this the only comprehensive, cross-ecosystem accumulating series, and makes every tracked day a day nobody can catch up on.</p><p>Every number here carries its fidelity. A measured velocity comes from two readings at least half a day apart. Anything weaker is labeled and stays grey: a young repo shows its lifetime average marked <code>~avg</code>, a repo on its first reading says it is still measuring. We would rather print less than print a number we would have to retract.</p><h2>Put it in your README</h2><p>One URL. No token, and it works for repos you do not own.</p>"#;

/// What it says about the shapes of a badge.
pub const INDEX_STYLES: &'static str = "<p>Add <code>?style=card</code> for the card with its 30-day sparkline, and <code>?theme=dark</code> if the README is dark. The pill is one render everywhere, the way the rest of the badge row is.</p>";

/// What it says about themes, up to the line for a dead embed.
pub const INDEX_THEME: &'static str = r#"<p class="note">The card above follows this page's theme: a <code>&lt;picture&gt;</code> with a <code>prefers-color-scheme</code> source, which is what a README wants if it has to read well in both.</p><p>If your README still points at the dead star-history embed, edit the hostname and change nothing else:</p>"#;

/// What it says about being tracked, the form, the leaderboard and opting out.
pub const INDEX_TRACK: &'static str = r#"<p>A badge request for a repo we have not seen before is what starts it being tracked. The first render says tracking has just started, and the series builds from there.</p><p class="note">If your repo is mostly Markdown, a skills collection say, GitHub files it under whatever scripts it finds, or under nothing. <code>*.md linguist-detectable</code> in <code>.gitattributes</code> fixes the label, on your repo page and on our rankings both.</p><h2>Track a repo</h2><form method="post" action="/enroll"><label for="repo">A public repo, as owner/name or its GitHub URL</label><input id="repo" type="text" name="repo" placeholder="owner/name" autocapitalize="off" autocorrect="off" spellcheck="false" required><button type="submit">Track it</button></form><p class="note">We enroll a fixed number of repos a day. Past that a submission goes into the queue and enrolls over the next days, rather than being dropped.</p><h2>The leaderboard</h2><p>Every tracked repo we can measure, ranked by stars per day. A card's percentile line is checkable there: same pool, same arithmetic, same day. <a href="/rankings">Open the rankings</a>.</p><h2>Opting out</h2><p>If you maintain a repo and you would rather it was not here, write to <a href="mailto:hello@afterglow.watch">hello@afterglow.watch</a> from an address that ties you to the repo. A person checks it by hand. After that the badge reads not tracked and the repo is gone from the rankings.</p><p>Readings already taken stay in the store, because nothing is ever deleted from it. Nothing further is collected, and nothing is shown.</p>"#;

/// What the leaderboard says when it has no rows.
pub const RANKINGS_EMPTY: &'static str = "<p>Nothing measured yet. A velocity needs two readings at least half a day apart, so the board fills in as the fleet reports.</p>";

/// What the leaderboard says under its rows.
pub const RANKINGS_NOTES: &'static str = r#"<p class="note">Ranks move week to week. The badge never prints one, because a number that swings is a number we would end up retracting.</p><p class="note">The language next to a repo is GitHub's call, and GitHub does not count Markdown. A mostly-Markdown repo shows whatever scripts are left, or nothing. Putting <code>*.md linguist-detectable</code> in its <code>.gitattributes</code> makes Markdown count, here and on the repo's own page.</p>"#;

// ---------------------------------------------------------------- escaping

/// A character the way it stands in a page's text or in an attribute.
pub open spec fn html_char(c: char) -> Seq<char> {
    if c == '&' {
        "&amp;"@
    } else if c == '<' {
        "&lt;"@
    } else if c == '>' {
        "&gt;"@
    } else if c == '"' {
        "&quot;"@
    } else {
        seq![c]
    }
}

/// A text the way it stands in a page.
pub open spec fn html_escaped(s: Seq<char>) -> Seq<char>
    decreases s.len(),
{
    if s.len() == 0 {
        Seq::empty()
    } else {
        html_escaped(s.drop_last()) + html_char(s.last())
    }
}

/// Calls `maud::Render::render` on a text, and trusts that it escapes `&`, `<`, `>` and `"` and
/// passes every other character through.
#[verifier::external_body]
fn escape(s: &str) -> (r: String)
    ensures
        r@ == html_escaped(s@),
{
    maud::Render::render(s).into_string()
}

/// Text that comes from outside opens no element and ends no attribute.
pub proof fn law_escaped_html_holds_no_markup(s: Seq<char>)
    ensures
        !html_escaped(s).contains('<'),
        !html_escaped(s).contains('>'),
        !html_escaped(s).contains('"'),
    decreases s.len(),
{
    if s.len() > 0 {
        let head = html_escaped(s.drop_last());
        let last = html_char(s.last());
        law_escaped_html_holds_no_markup(s.drop_last());
        reveal_strlit("&amp;");
        reveal_strlit("&lt;");
        reveal_strlit("&gt;");
        reveal_strlit("&quot;");
        assert(!last.contains('<') && !last.contains('>') && !last.contains('"'));
        assert forall|c: char| c == '<' || c == '>' || c == '"' implies !(#[trigger] html_escaped(
            s,
        ).contains(c)) by {
            if (head + last).contains(c) {
                let i = choose|i: int| 0 <= i < (head + last).len() && (head + last)[i] == c;
                if i < head.len() {
                    assert(head[i] == c);
                    assert(head.contains(c));
                } else {
                    assert(last[i - head.len()] == c);
                    assert(last.contains(c));
                }
            }
        }
    }
}

// ---------------------------------------------------------------- a row of the leaderboard

/// The outline of the area under a row's line, which closes on the bottom edge of its box.
pub open spec fn area_text(points: Seq<Point>) -> Seq<char> {
    "M"@ + join(point_texts(points, 0, 0), " L"@) + " L"@ + coord_text(points.last().x as int)
        + ",24 L"@ + coord_text(points[0].x as int) + ",24 Z"@
}

fn area(points: &Vec<Point>) -> (r: String)
    requires
        points.len() > 0,
    ensures
        r@ == area_text(points@),
{
    let mut out = "M".to_owned();
    out.append(joined_points(points, " L", 0, 0).as_str());
    out.append(" L");
    out.append(coord(points[points.len() - 1].x as i128).as_str());
    out.append(",24 L");
    out.append(coord(points[0].x as i128).as_str());
    out.append(",24 Z");
    out
}

/// A row's 30 days, drawn the way the card draws them, one order smaller.
pub open spec fn minispark_html(points: Seq<Point>) -> Seq<char> {
    if points.len() == 0 {
        r#"<span class="c-spark"></span>"#@
    } else {
        r#"<svg class="c-spark spark" aria-hidden="true" width="100" height="24" viewBox="0 0 100 24"><path d=""#@
        + area_text(points)
        + r#"" fill="url(#glow)"></path><polyline points=""#@
        + join(point_texts(points, 0, 0), " "@)
        + r#""></polyline></svg>"#@
    }
}

fn minispark(points: &Vec<Point>) -> (r: String)
    ensures
        r@ == minispark_html(points@),
{
    if points.len() == 0 {
        return r#"<span class="c-spark"></span>"#.to_owned();
    }
    let area = area(points);
    let line = joined_points(points, " ", 0, 0);
    let mut out = r#"<svg class="c-spark spark" aria-hidden="true" width="100" height="24" viewBox="0 0 100 24"><path d=""#.to_owned();
    out.append(area.as_str());
    out.append(r#"" fill="url(#glow)"></path><polyline points=""#);
    out.append(line.as_str());
    out.append(r#""></polyline></svg>"#);
    out
}

/// Colours of languages, by their names.
pub open spec fn color_texts(colors: Seq<(String, String)>) -> Seq<(Seq<char>, Seq<char>)> {
    colors.map_values(|c: (String, String)| (c.0@, c.1@))
}

/// The colour of a language's dot: the hex that Linguist gives it, or a neutral one.
pub open spec fn color_of(colors: Seq<(Seq<char>, Seq<char>)>, name: Seq<char>) -> Seq<char>
    decreases colors.len(),
{
    if colors.len() == 0 {
        "var(--border)"@
    } else if colors[0].0 == name {
        colors[0].1
    } else {
        color_of(colors.skip(1), name)
    }
}

fn color<'a>(colors: &'a Vec<(String, String)>, name: &str) -> (r: &'a str)
    ensures
        r@ == color_of(color_texts(colors@), name@),
{
    let ghost all = color_texts(colors@);
    let mut i: usize = 0;
    assert(all.skip(0) =~= all);
    while i < colors.len()
        invariant
            i <= colors.len(),
            all == color_texts(colors@),
            color_of(all, name@) == color_of(all.skip(i as int), name@),
        decreases colors.len() - i,
    {
        assert(all.skip(i as int)[0] == (colors@[i as int].0@, colors@[i as int].1@));
        assert(all.skip(i as int).skip(1) =~= all.skip(i + 1));
        if same(colors[i].0.as_str(), name) {
            return colors[i].1.as_str();
        }
        i += 1;
    }
    "var(--border)"
}

/// The language of a row. GitHub's call, not ours, and it shares the repo cell rather than
/// taking a column: information, never an ordering. Without a verdict there is no claim.
pub open spec fn language_html(
    language: Option<Seq<char>>,
    colors: Seq<(Seq<char>, Seq<char>)>,
) -> Seq<char> {
    match language {
        Some(name) => {
            r#"<span class="c-lang"><svg class="dot" aria-hidden="true" viewBox="0 0 8 8"><circle cx="4" cy="4" r="4" fill=""#@
        + html_escaped(color_of(colors, name))
        + r#""></circle></svg>"#@
        + html_escaped(name)
        + "</span>"@
        },
        None => Seq::empty(),
    }
}

fn language_cell(language: &Option<String>, colors: &Vec<(String, String)>) -> (r: String)
    ensures
        r@ == language_html(opt_text(*language), color_texts(colors@)),
{
    let name = match language {
        Some(name) => name.as_str(),
        None => {
            let none = String::new();
            assert(none@ =~= Seq::<char>::empty());
            return none;
        },
    };
    let fill = color(colors, name);
    let mut out = r#"<span class="c-lang"><svg class="dot" aria-hidden="true" viewBox="0 0 8 8"><circle cx="4" cy="4" r="4" fill=""#.to_owned();
    out.append(escape(fill).as_str());
    out.append(r#""></circle></svg>"#);
    out.append(escape(name).as_str());
    out.append("</span>");
    out
}

/// Green is the mark of measured gain. A decline is a plain foreground fact.
pub open spec fn gain_class(per_day: int) -> Seq<char> {
    if per_day >= 0 {
        "gain"@
    } else {
        "drop"@
    }
}

/// The velocity cell of a row. Every unit is drawn as a glyph or a column header, which a
/// screen reader reading one cell has neither of: the hidden words are what the eye already
/// gets from the layout. A proxy average never glows at all.
pub open spec fn velocity_html(v: RowVelocity) -> Seq<char> {
    match v {
        RowVelocity::Measured { per_day, .. } => {
            r#"<span class="num "#@
        + gain_class(per_day as int)
        + r#""><span class="sr-only">"#@
        + direction_text(per_day as int)
        + r#" </span><span aria-hidden="true">"#@
        + arrow_text(per_day as int)
        + " </span>"@
        + rate_text(per_day as int)
        + "</span>"@
        },
        RowVelocity::Proxy { avg } => {
            r#"<span class="num proxy">"#@
        + proxy_text(avg as int)
        + "</span>"@
        },
    }
}

fn measured_cell(per_day: i64) -> (r: String)
    ensures
        forall|top_percent: Share|
            r@ == #[trigger] velocity_html(RowVelocity::Measured { per_day, top_percent }),
{
    let class = if per_day >= 0 {
        "gain"
    } else {
        "drop"
    };
    let mut out = r#"<span class="num "#.to_owned();
    out.append(class);
    out.append(r#""><span class="sr-only">"#);
    out.append(direction(per_day));
    out.append(r#" </span><span aria-hidden="true">"#);
    out.append(arrow(per_day));
    out.append(" </span>");
    out.append(rate(per_day).as_str());
    out.append("</span>");
    out
}

fn proxy_cell(avg: i64) -> (r: String)
    ensures
        r@ == velocity_html(RowVelocity::Proxy { avg }),
{
    let mut out = r#"<span class="num proxy">"#.to_owned();
    out.append(proxy_avg(avg).as_str());
    out.append("</span>");
    out
}

fn velocity_cell(v: &RowVelocity) -> (r: String)
    ensures
        r@ == velocity_html(*v),
{
    match *v {
        RowVelocity::Measured { per_day, top_percent } => {
            let cell = measured_cell(per_day);
            assert(cell@ == velocity_html(RowVelocity::Measured { per_day, top_percent }));
            cell
        },
        RowVelocity::Proxy { avg } => proxy_cell(avg),
    }
}

/// The percentile cell of a row, which only a measured one fills.
pub open spec fn percentile_html(v: RowVelocity) -> Seq<char> {
    match v {
        RowVelocity::Measured { top_percent, .. } => {
            r#"<span class="c-pct num">top "#@
        + percent_text(top_percent)
        + r#"%<span class="sr-only"> velocity</span></span>"#@
        },
        RowVelocity::Proxy { .. } => r#"<span class="c-pct"></span>"#@,
    }
}

fn percentile_cell(v: &RowVelocity) -> (r: String)
    requires
        v.wf(),
    ensures
        r@ == percentile_html(*v),
{
    let top_percent = match *v {
        RowVelocity::Measured { top_percent, .. } => top_percent,
        RowVelocity::Proxy { .. } => return r#"<span class="c-pct"></span>"#.to_owned(),
    };
    let mut out = r#"<span class="c-pct num">top "#.to_owned();
    out.append(percent(top_percent).as_str());
    out.append(r#"%<span class="sr-only"> velocity</span></span>"#);
    out
}

/// A row of the leaderboard.
pub open spec fn row_html(row: RowView, colors: Seq<(Seq<char>, Seq<char>)>) -> Seq<char> {
    r#"<span class="c-repo"><a href="https://github.com/"#@
        + html_escaped(row.full_name)
        + r#"">"#@
        + html_escaped(row.full_name)
        + "</a>"@
        + language_html(row.language, colors)
        + "</span>"@
        + minispark_html(row.spark)
        + r##"<span class="c-stars num"><svg class="star" aria-hidden="true" viewBox="0 0 16 16"><use href="#star"></use></svg>"##@
        + commas_text(row.stars)
        + r#"<span class="sr-only"> stars</span></span>"#@
        + velocity_html(row.velocity)
        + percentile_html(row.velocity)
}

/// A row of the leaderboard.
pub fn board_row(row: &BoardRow, colors: &Vec<(String, String)>) -> (r: String)
    requires
        row.velocity.wf(),
    ensures
        r@ == row_html(row@, color_texts(colors@)),
{
    let name = escape(row.full_name.as_str());
    let language = language_cell(&row.language, colors);
    let spark = minispark(&row.spark);
    let stars = commas(row.stars);
    let rate = velocity_cell(&row.velocity);
    let pct = percentile_cell(&row.velocity);
    let mut out = r#"<span class="c-repo"><a href="https://github.com/"#.to_owned();
    out.append(name.as_str());
    out.append(r#"">"#);
    out.append(name.as_str());
    out.append("</a>");
    out.append(language.as_str());
    out.append("</span>");
    out.append(spark.as_str());
    out.append(r##"<span class="c-stars num"><svg class="star" aria-hidden="true" viewBox="0 0 16 16"><use href="#star"></use></svg>"##);
    out.append(stars.as_str());
    out.append(r#"<span class="sr-only"> stars</span></span>"#);
    out.append(rate.as_str());
    out.append(pct.as_str());
    out
}

/// A guess wears no mark of a measurement: its cell has neither the class of a gain nor a
/// direction, and its percentile cell is empty.
pub proof fn law_a_guess_never_looks_measured(avg: i64)
    ensures
        velocity_html(RowVelocity::Proxy { avg }) == r#"<span class="num proxy">"#@ + proxy_text(
            avg as int,
        ) + "</span>"@,
        percentile_html(RowVelocity::Proxy { avg }) == r#"<span class="c-pct"></span>"#@,
{
}

// ---------------------------------------------------------------- the leaderboard

/// The header of the stars column. The other ordering is the same board, so the way to it is
/// the header of the column it sorts on. The one in force is not a link to itself.
pub open spec fn stars_head(sort: Sort) -> Seq<char> {
    match sort {
        Sort::Velocity => r#"<a href="/rankings?sort=stars" aria-label="sort by stars">stars</a>"#@,
        Sort::Stars => "stars"@,
    }
}

/// The header of the velocity column.
pub open spec fn velocity_head(sort: Sort) -> Seq<char> {
    match sort {
        Sort::Velocity => "velocity"@,
        Sort::Stars => r#"<a href="/rankings" aria-label="sort by velocity">velocity</a>"#@,
    }
}

/// The column headers. The rank column is drawn by a CSS counter, so its header has nothing to
/// show and everything to say.
pub open spec fn head_html(sort: Sort) -> Seq<char> {
    r#"<div class="row head"><span><span class="sr-only">rank</span></span><span class="c-repo">repo</span><span class="c-spark">30 days</span><span class="c-stars num">"#@
        + stars_head(sort)
        + r#"</span><span class="num">"#@
        + velocity_head(sort)
        + r#"</span><span class="c-pct num">percentile</span></div>"#@
}

fn head_strip(sort: Sort) -> (r: String)
    ensures
        r@ == head_html(sort),
{
    let (stars, rate): (&'static str, &'static str) = match sort {
        Sort::Velocity => (
            r#"<a href="/rankings?sort=stars" aria-label="sort by stars">stars</a>"#,
            "velocity",
        ),
        Sort::Stars => (
            "stars",
            r#"<a href="/rankings" aria-label="sort by velocity">velocity</a>"#,
        ),
    };
    let mut out = r#"<div class="row head"><span><span class="sr-only">rank</span></span><span class="c-repo">repo</span><span class="c-spark">30 days</span><span class="c-stars num">"#.to_owned();
    out.append(stars);
    out.append(r#"</span><span class="num">"#);
    out.append(rate);
    out.append(r#"</span><span class="c-pct num">percentile</span></div>"#);
    out
}

/// What stands above the leaderboard.
pub open spec fn lede_html() -> Seq<char> {
    r#"<h1>Velocity</h1><p class="lede">Every tracked repo we can measure, by stars per day. Measured rows carry a percentile against the whole tracked set. Grey rows are young repos ranked on a lifetime average, which is a weaker claim and looks like one. April 2025, replayed from the public record, has <a href=""#@
        + APRIL_2025_URL@
        + r#"">a page of its own</a>.</p>"#@
}

fn lede() -> (r: String)
    ensures
        r@ == lede_html(),
{
    let mut out = r#"<h1>Velocity</h1><p class="lede">Every tracked repo we can measure, by stars per day. Measured rows carry a percentile against the whole tracked set. Grey rows are young repos ranked on a lifetime average, which is a weaker claim and looks like one. April 2025, replayed from the public record, has <a href=""#.to_owned();
    out.append(APRIL_2025_URL);
    out.append(r#"">a page of its own</a>.</p>"#);
    out
}

/// The rows of the leaderboard.
pub open spec fn rows_html(rows: Seq<RowView>, colors: Seq<(Seq<char>, Seq<char>)>) -> Seq<char>
    decreases rows.len(),
{
    if rows.len() == 0 {
        Seq::empty()
    } else {
        rows_html(rows.drop_last(), colors) + r#"<li class="row">"#@ + row_html(rows.last(), colors)
            + "</li>"@
    }
}

fn board_list(board: &Board, colors: &Vec<(String, String)>) -> (r: String)
    requires
        board.wf(),
    ensures
        r@ == rows_html(row_views(board.rows@), color_texts(colors@)),
{
    let ghost all = row_views(board.rows@);
    let mut out = String::new();
    let mut i: usize = 0;
    assert(all.take(0) =~= Seq::<RowView>::empty());
    assert(out@ =~= Seq::<char>::empty());
    while i < board.rows.len()
        invariant
            i <= board.rows.len(),
            board.wf(),
            all == row_views(board.rows@),
            out@ == rows_html(all.take(i as int), color_texts(colors@)),
        decreases board.rows.len() - i,
    {
        assert(all.take(i + 1).drop_last() =~= all.take(i as int));
        assert(all.take(i + 1).last() == board.rows@[i as int]@);
        assert(all[i as int] == board.rows@[i as int]@);
        out.append(r#"<li class="row">"#);
        out.append(board_row(&board.rows[i], colors).as_str());
        out.append("</li>");
        i += 1;
    }
    assert(all.take(i as int) =~= all);
    out
}

/// The rows of the leaderboard and what is said under them.
pub open spec fn board_html(rows: Seq<RowView>, colors: Seq<(Seq<char>, Seq<char>)>) -> Seq<char> {
    r#"<ol class="board">"#@
        + rows_html(rows, colors)
        + "</ol>"@
        + RANKINGS_NOTES@
}

fn board_section(board: &Board, colors: &Vec<(String, String)>) -> (r: String)
    requires
        board.wf(),
    ensures
        r@ == board_html(row_views(board.rows@), color_texts(colors@)),
{
    let rows = board_list(board, colors);
    let mut out = r#"<ol class="board">"#.to_owned();
    out.append(rows.as_str());
    out.append("</ol>");
    out.append(RANKINGS_NOTES);
    out
}

/// The leaderboard's own part of its page.
pub open spec fn rankings_body(
    rows: Seq<RowView>,
    sort: Sort,
    colors: Seq<(Seq<char>, Seq<char>)>,
) -> Seq<char> {
    if rows.len() == 0 {
        lede_html() + RANKINGS_EMPTY@
    } else {
        lede_html() + head_html(sort) + board_html(rows, colors)
    }
}

/// The leaderboard, in the order that its rows are in. `colors` holds Linguist's colour for a
/// language, by its name.
pub fn rankings(board: &Board, sort: Sort, colors: &Vec<(String, String)>) -> (r: String)
    requires
        board.wf(),
    ensures
        r@ == shell_html(
            "Afterglow velocity rankings"@,
            "/rankings"@,
            rankings_body(row_views(board.rows@), sort, color_texts(colors@)),
            opt_text(board.through),
        ),
{
    let mut body = lede();
    if board.rows.len() == 0 {
        body.append(RANKINGS_EMPTY);
    } else {
        body.append(head_strip(sort).as_str());
        body.append(board_section(board, colors).as_str());
    }
    assert(row_views(board.rows@).len() == board.rows@.len());
    shell("Afterglow velocity rankings", "/rankings", body.as_str(), &board.through)
}

// ---------------------------------------------------------------- the site page

/// The name that the site page's lines are about: the first row's, or nobody's.
pub open spec fn slug_of(rows: Seq<BoardRow>) -> Seq<char> {
    if rows.len() > 0 {
        rows[0].full_name@
    } else {
        "OWNER/REPO"@
    }
}

/// How a README embeds a repo's badge.
pub open spec fn embed_html(name: Seq<char>) -> Seq<char> {
    "<pre><code>![stars]("@
        + HOST@
        + "/badge/"@
        + html_escaped(name)
        + ")</code></pre>"@
}

fn embed(name: &str) -> (r: String)
    ensures
        r@ == embed_html(name@),
{
    let mut out = "<pre><code>![stars](".to_owned();
    out.append(HOST);
    out.append("/badge/");
    out.append(escape(name).as_str());
    out.append(")</code></pre>");
    out
}

/// How a README that points at a dead embed is mended.
pub open spec fn compat_html(name: Seq<char>) -> Seq<char> {
    "<pre><code>"@
        + HOST@
        + "/svg?repos="@
        + html_escaped(name)
        + "&amp;type=Date</code></pre>"@
}

fn compat(name: &str) -> (r: String)
    ensures
        r@ == compat_html(name@),
{
    let mut out = "<pre><code>".to_owned();
    out.append(HOST);
    out.append("/svg?repos=");
    out.append(escape(name).as_str());
    out.append("&amp;type=Date</code></pre>");
    out
}

/// A repo's pill and its card, the card the way a themed README should ask for it.
pub open spec fn examples_html(name: Seq<char>) -> Seq<char> {
    r#"<div class="examples"><img src="/badge/"#@
        + html_escaped(name)
        + r#"" alt="afterglow pill for "#@
        + html_escaped(name)
        + r#"" height="20"><picture><source media="(prefers-color-scheme: dark)" srcset="/badge/"#@
        + html_escaped(name)
        + r#"?style=card&amp;theme=dark"><img src="/badge/"#@
        + html_escaped(name)
        + r#"?style=card" alt="afterglow card for "#@
        + html_escaped(name)
        + r#"" width="420" height="150"></picture></div>"#@
}

fn examples(name: &str) -> (r: String)
    ensures
        r@ == examples_html(name@),
{
    let name = escape(name);
    let mut out = r#"<div class="examples"><img src="/badge/"#.to_owned();
    out.append(name.as_str());
    out.append(r#"" alt="afterglow pill for "#);
    out.append(name.as_str());
    out.append(r#"" height="20"><picture><source media="(prefers-color-scheme: dark)" srcset="/badge/"#);
    out.append(name.as_str());
    out.append(r#"?style=card&amp;theme=dark"><img src="/badge/"#);
    out.append(name.as_str());
    out.append(r#"?style=card" alt="afterglow card for "#);
    out.append(name.as_str());
    out.append(r#"" width="420" height="150"></picture></div>"#);
    out
}

/// The site page's own part.
pub open spec fn index_body(rows: Seq<BoardRow>) -> Seq<char> {
    let slug = slug_of(rows);
    let shown = if rows.len() > 0 {
        examples_html(slug)
    } else {
        Seq::empty()
    };
    INDEX_TOP@ + embed_html(slug) + INDEX_STYLES@ + shown + INDEX_THEME@ + compat_html(slug)
        + INDEX_TRACK@
}

/// The site page. Its examples are drawn for a repo that is really tracked.
pub fn index(board: &Board) -> (r: String)
    ensures
        r@ == shell_html(
            "Afterglow"@,
            "/"@,
            index_body(board.rows@),
            opt_text(board.through),
        ),
{
    let some = board.rows.len() > 0;
    let slug = if some {
        board.rows[0].full_name.as_str()
    } else {
        "OWNER/REPO"
    };
    let shown = if some {
        examples(slug)
    } else {
        let none = String::new();
        assert(none@ =~= Seq::<char>::empty());
        none
    };
    let mut body = INDEX_TOP.to_owned();
    body.append(embed(slug).as_str());
    body.append(INDEX_STYLES);
    body.append(shown.as_str());
    body.append(INDEX_THEME);
    body.append(compat(slug).as_str());
    body.append(INDEX_TRACK);
    shell("Afterglow", "/", body.as_str(), &board.through)
}

// ---------------------------------------------------------------- what the form says back

/// The heading of a reply.
pub open spec fn reply_heading(outcome: OutcomeView) -> Seq<char> {
    match outcome {
        OutcomeView::Malformed => "That is not a repo name"@,
        OutcomeView::Tracking { full_name, fresh } => if fresh {
            "Tracking "@ + full_name
        } else {
            full_name + " is already tracked"@
        },
        OutcomeView::Queued { full_name } => full_name + " is queued"@,
        OutcomeView::Nothing { full_name } => "Nothing to track for "@ + full_name,
    }
}

/// The paragraph of a reply. Queued covers a spent budget and a GitHub that could not be
/// reached, so the wording claims neither.
pub open spec fn reply_text(outcome: OutcomeView) -> Seq<char> {
    match outcome {
        OutcomeView::Malformed => "Use owner/name, or paste the repo's GitHub URL."@,
        OutcomeView::Tracking { fresh, .. } => if fresh {
            "The first reading is in. Its badge says tracking started today, and a measured velocity appears once a second reading lands at least half a day later."@
        } else {
            "Nothing to do, then. Here is its badge as it stands."@
        },
        OutcomeView::Queued {
            ..
        } => "We could not enroll it just now, so its name is parked. The queue is worked through over the next days, in the order it was asked for, and nothing is dropped out of it."@,
        OutcomeView::Nothing {
            ..
        } => "Either there is no public repo by that name, or its maintainer asked us not to track it."@,
    }
}

/// A repo's pill.
pub open spec fn pill_html(name: Seq<char>) -> Seq<char> {
    r#"<div class="examples"><img src="/badge/"#@
        + html_escaped(name)
        + r#"" alt="afterglow pill for "#@
        + html_escaped(name)
        + r#"" height="20"></div>"#@
}

fn pill(name: &str) -> (r: String)
    ensures
        r@ == pill_html(name@),
{
    let name = escape(name);
    let mut out = r#"<div class="examples"><img src="/badge/"#.to_owned();
    out.append(name.as_str());
    out.append(r#"" alt="afterglow pill for "#);
    out.append(name.as_str());
    out.append(r#"" height="20"></div>"#);
    out
}

/// The badge under a reply, for a repo that is tracked.
pub open spec fn reply_badge(outcome: OutcomeView) -> Seq<char> {
    match outcome {
        OutcomeView::Tracking { full_name, .. } => pill_html(full_name) + embed_html(full_name),
        _ => Seq::empty(),
    }
}

/// A reply's own part of its page.
pub open spec fn reply_body(outcome: OutcomeView) -> Seq<char> {
    "<h1>"@
        + html_escaped(reply_heading(outcome))
        + "</h1><p>"@
        + reply_text(outcome)
        + "</p>"@
        + reply_badge(outcome)
        + r#"<p><a href="/">Back to afterglow.watch</a></p>"#@
}

fn pair(a: &str, b: &str) -> (r: String)
    ensures
        r@ == a@ + b@,
{
    let mut out = a.to_owned();
    out.append(b);
    out
}

fn reply(outcome: &Outcome) -> (r: String)
    ensures
        r@ == reply_body(outcome@),
{
    let heading = match outcome {
        Outcome::Malformed => "That is not a repo name".to_owned(),
        Outcome::Tracking { full_name, fresh } => {
            if *fresh {
                pair("Tracking ", full_name.as_str())
            } else {
                pair(full_name.as_str(), " is already tracked")
            }
        },
        Outcome::Queued { full_name } => pair(full_name.as_str(), " is queued"),
        Outcome::Nothing { full_name } => pair("Nothing to track for ", full_name.as_str()),
    };
    let text = match outcome {
        Outcome::Malformed => "Use owner/name, or paste the repo's GitHub URL.",
        Outcome::Tracking { fresh, .. } => {
            if *fresh {
                "The first reading is in. Its badge says tracking started today, and a measured velocity appears once a second reading lands at least half a day later."
            } else {
                "Nothing to do, then. Here is its badge as it stands."
            }
        },
        Outcome::Queued { .. } => {
            "We could not enroll it just now, so its name is parked. The queue is worked through over the next days, in the order it was asked for, and nothing is dropped out of it."
        },
        Outcome::Nothing { .. } => {
            "Either there is no public repo by that name, or its maintainer asked us not to track it."
        },
    };
    let badge = match outcome {
        Outcome::Tracking { full_name, .. } => pair(
            pill(full_name.as_str()).as_str(),
            embed(full_name.as_str()).as_str(),
        ),
        _ => {
            let none = String::new();
            assert(none@ =~= Seq::<char>::empty());
            none
        },
    };
    let mut out = "<h1>".to_owned();
    out.append(escape(heading.as_str()).as_str());
    out.append("</h1><p>");
    out.append(text);
    out.append("</p>");
    out.append(badge.as_str());
    out.append(r#"<p><a href="/">Back to afterglow.watch</a></p>"#);
    out
}

/// What the site says back about a submission.
pub fn enrolled(outcome: &Outcome) -> (r: String)
    ensures
        r@ == shell_html("Afterglow"@, ""@, reply_body(outcome@), None),
{
    shell("Afterglow", "", reply(outcome).as_str(), &None)
}

/// A repo that opted out is answered with the page of a repo that is not there.
pub proof fn law_replies_do_not_tell_opt_outs(
    name: Seq<char>,
    repo: TrackedRepo,
    now: int,
    hidden: Submitting,
    unknown: Submitting,
)
    requires
        repo.status == Status::OptedOut,
        submits(
            name,
            Submitting::LookingUp,
            SubmitEvent::LookedUp(Lookup::Found(repo)),
            now,
            hidden,
        ),
        submits(
            name,
            Submitting::Enrolling(Enrolling::Asking),
            SubmitEvent::Enrolled(EnrollEvent::Answered(Answer::Missing)),
            now,
            unknown,
        ),
    ensures
        (hidden matches Submitting::Done(said) && unknown matches Submitting::Done(other)
            && reply_body(said@) == reply_body(other@)),
{
}

// ---------------------------------------------------------------- around every page

/// The mark of the page that a link of the navigation leads to. The nav says where we are; the
/// wordmark is the way home and nothing else, or the page announces itself twice.
pub open spec fn current(here: Seq<char>, path: Seq<char>) -> Seq<char> {
    if here == path {
        r#" aria-current="page""#@
    } else {
        ""@
    }
}

fn aria_current(here: &str, path: &str) -> (r: &'static str)
    ensures
        r@ == current(here@, path@),
{
    if same(here, path) {
        r#" aria-current="page""#
    } else {
        ""
    }
}

/// The identity mark: the sparkline rising into the star through its bottom notch.
pub open spec fn mark_html() -> Seq<char> {
    r#"<svg class="mark" viewBox="93 155 325 265" aria-hidden="true"><path class="fade" d="M93 344 L104 344 L184 312 L248 328 L358 211 L358 430 L93 430 Z" fill="url(#glow)"></path><path class="line" d="M104 344 L184 312 L248 328 L328 243"></path><g transform="translate(368,200) rotate(43.2) scale(8) translate(-8,-7.6)"><path class="glyph" d=""#@
        + STAR@
        + r#""></path></g></svg>"#@
}

fn mark() -> (r: String)
    ensures
        r@ == mark_html(),
{
    let mut out = r#"<svg class="mark" viewBox="93 155 325 265" aria-hidden="true"><path class="fade" d="M93 344 L104 344 L184 312 L248 328 L358 211 L358 430 L93 430 Z" fill="url(#glow)"></path><path class="line" d="M104 344 L184 312 L248 328 L328 243"></path><g transform="translate(368,200) rotate(43.2) scale(8) translate(-8,-7.6)"><path class="glyph" d=""#.to_owned();
    out.append(STAR);
    out.append(r#""></path></g></svg>"#);
    out
}

/// The star and the afterglow fade, defined once and pointed at from every row.
pub open spec fn sprite_html() -> Seq<char> {
    r#"<svg class="sprite" aria-hidden="true" width="0" height="0"><defs><linearGradient id="glow" x1="0" y1="0" x2="0" y2="1"><stop offset="0" stop-opacity=".3"></stop><stop offset="1" stop-opacity="0"></stop></linearGradient><symbol id="star" viewBox="0 0 16 16"><path d=""#@
        + STAR@
        + r#""></path></symbol></defs></svg>"#@
}

fn sprite() -> (r: String)
    ensures
        r@ == sprite_html(),
{
    let mut out = r#"<svg class="sprite" aria-hidden="true" width="0" height="0"><defs><linearGradient id="glow" x1="0" y1="0" x2="0" y2="1"><stop offset="0" stop-opacity=".3"></stop><stop offset="1" stop-opacity="0"></stop></linearGradient><symbol id="star" viewBox="0 0 16 16"><path d=""#.to_owned();
    out.append(STAR);
    out.append(r#""></path></symbol></defs></svg>"#);
    out
}

/// A whole page around its own part.
pub open spec fn shell_html(
    title: Seq<char>,
    here: Seq<char>,
    body: Seq<char>,
    through: Option<Seq<char>>,
) -> Seq<char> {
    r#"<!DOCTYPE html><html lang="en"><head><meta charset="utf-8"><meta name="viewport" content="width=device-width, initial-scale=1"><title>"#@
        + html_escaped(title)
        + r#"</title><meta name="description" content=""#@
        + DESCRIPTION@
        + r#""><link rel="preload" href=""#@
        + FONT_URL@
        + r#"" as="font" type="font/woff2" crossorigin><link rel="icon" type="image/svg+xml" href=""#@
        + ICON_SVG_URL@
        + r#""><link rel="icon" type="image/png" sizes="96x96" href=""#@
        + ICON_PNG_URL@
        + r#""><link rel="apple-touch-icon" href=""#@
        + TOUCH_ICON_URL@
        + r#""><style>"#@
        + CSS@
        + "</style></head><body>"@
        + sprite_html()
        + r#"<div class="page"><header class="masthead"><a class="wordmark" href="/">"#@
        + mark_html()
        + r#"afterglow</a><nav><a href="/""#@
        + current(here, "/"@)
        + r#">home</a><a href="/rankings""#@
        + current(here, "/rankings"@)
        + ">rankings</a></nav></header><main>"@
        + body
        + "</main>"@
        + attribution_html(through)
        + "</div></body></html>"@
}

fn shell(title: &str, here: &str, body: &str, through: &Option<String>) -> (r: String)
    ensures
        r@ == shell_html(title@, here@, body@, opt_text(*through)),
{
    let mut out = r#"<!DOCTYPE html><html lang="en"><head><meta charset="utf-8"><meta name="viewport" content="width=device-width, initial-scale=1"><title>"#.to_owned();
    out.append(escape(title).as_str());
    out.append(r#"</title><meta name="description" content=""#);
    out.append(DESCRIPTION);
    out.append(r#""><link rel="preload" href=""#);
    out.append(FONT_URL);
    out.append(r#"" as="font" type="font/woff2" crossorigin><link rel="icon" type="image/svg+xml" href=""#);
    out.append(ICON_SVG_URL);
    out.append(r#""><link rel="icon" type="image/png" sizes="96x96" href=""#);
    out.append(ICON_PNG_URL);
    out.append(r#""><link rel="apple-touch-icon" href=""#);
    out.append(TOUCH_ICON_URL);
    out.append(r#""><style>"#);
    out.append(CSS);
    out.append("</style></head><body>");
    out.append(sprite().as_str());
    out.append(r#"<div class="page"><header class="masthead"><a class="wordmark" href="/">"#);
    out.append(mark().as_str());
    out.append(r#"afterglow</a><nav><a href="/""#);
    out.append(aria_current(here, "/"));
    out.append(r#">home</a><a href="/rankings""#);
    out.append(aria_current(here, "/rankings"));
    out.append(">rankings</a></nav></header><main>");
    out.append(body);
    out.append("</main>");
    out.append(attribution(through).as_str());
    out.append("</div></body></html>");
    out
}

/// The moment of a page's numbers, to the minute.
pub open spec fn stamp_of(ts: Seq<char>) -> Option<Seq<char>> {
    if !ts.contains('T') {
        None
    } else {
        match byte_prefix(after(ts, 'T'), 5) {
            Some(clock) => Some(before(ts, 'T') + " "@ + clock + " UTC"@),
            None => None,
        }
    }
}

/// `2026-07-31T05:31:47Z` as `2026-07-31 05:31 UTC`.
pub fn stamp(ts: &str) -> (r: Option<String>)
    ensures
        opt_text(r) == stamp_of(ts@),
{
    let (date, clock) = match split_once_at(ts, 'T') {
        Some(parts) => parts,
        None => return None,
    };
    match byte_prefix_of(clock, 5) {
        Some(minutes) => {
            let mut out = date.to_owned();
            out.append(" ");
            out.append(minutes);
            out.append(" UTC");
            Some(out)
        },
        None => None,
    }
}

/// What a page says about the moment of its numbers, where that can be read.
pub open spec fn through_html(through: Option<Seq<char>>) -> Seq<char> {
    match through {
        Some(ts) => match stamp_of(ts) {
            Some(stamp) => " · snapshots through "@ + html_escaped(stamp),
            None => Seq::empty(),
        },
        None => Seq::empty(),
    }
}

/// Attribution without affiliation, plus the moment the page's numbers are from. No GitHub
/// mark, no borrowed trade dress.
pub open spec fn attribution_html(through: Option<Seq<char>>) -> Seq<char> {
    r#"<footer class="attribution"><p>Source: GitHub public API"#@
        + through_html(through)
        + r#"</p><p>Afterglow is an independent project and is not affiliated with GitHub.</p><p><a href=""#@
        + SOURCE_REPO@
        + r#"">source on GitHub</a> · <a href="https://x.com/afterglowwatch">@afterglowwatch on X</a> · <a href="https://bsky.app/profile/afterglow.watch">@afterglow.watch on Bluesky</a></p></footer>"#@
}

fn attribution(through: &Option<String>) -> (r: String)
    ensures
        r@ == attribution_html(opt_text(*through)),
{
    let stamp = match through {
        Some(ts) => stamp(ts.as_str()),
        None => None,
    };
    let stamped = match stamp {
        Some(stamp) => pair(" · snapshots through ", escape(stamp.as_str()).as_str()),
        None => {
            let none = String::new();
            assert(none@ =~= Seq::<char>::empty());
            none
        },
    };
    let mut out = r#"<footer class="attribution"><p>Source: GitHub public API"#.to_owned();
    out.append(stamped.as_str());
    out.append(r#"</p><p>Afterglow is an independent project and is not affiliated with GitHub.</p><p><a href=""#);
    out.append(SOURCE_REPO);
    out.append(r#"">source on GitHub</a> · <a href="https://x.com/afterglowwatch">@afterglowwatch on X</a> · <a href="https://bsky.app/profile/afterglow.watch">@afterglow.watch on Bluesky</a></p></footer>"#);
    out
}

} // verus!
