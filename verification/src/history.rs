//! The whole series of a repo, drawn as a square under the card's own numbers.

use vstd::prelude::*;

#[allow(unused_imports)]
use crate::badge::{
    card_parts, card_words, coord, coord_text, escaped, join, joined_points, not_tracked_card_words, not_tracked_parts,
    palette_of, point_texts, xml_escape, BadgeState, CardParts, CardWords, Fonts, Palette, Point, RepoBadge, Theme,
};
#[allow(unused_imports)]
use crate::velocity::Region;

verus! {

/// Where the series is drawn: as wide as the card's line, and most of the square high.
pub open spec fn history_region() -> Region {
    Region { width: 388, top: 4, bottom: 296, flat: 150 }
}

pub fn history_spark() -> (r: Region)
    ensures
        r == history_region(),
        r.wf(),
{
    Region { width: 388, top: 4, bottom: 296, flat: 150 }
}

/// The square around what a card says.
pub open spec fn history_svg(p: CardWords, t: Palette) -> Seq<char> {
    r#"<svg xmlns="http://www.w3.org/2000/svg" width="420" height="420" role="img" aria-label=""#@
        + p.aria
        + r#"">
<title>"#@
        + p.aria
        + r#"</title>
<rect x=".5" y=".5" width="419" height="419" rx="6" fill=""#@
        + t.canvas@
        + r#"" stroke=""#@
        + t.border@
        + r#""/>
<g font-family="Helvetica,Arial,sans-serif">
<text x="16" y="27" font-size="13" font-weight="600" fill=""#@
        + p.name_fill
        + r#"">"#@
        + p.repo
        + "</text>
"@
        + p.nums
        + "
"@
        + p.pct
        + "
"@
        + p.spark
        + "
"@
        + p.footer
        + r#"
<text x="404" y="410" font-size="10.5" text-anchor="end" fill=""#@
        + t.muted@
        + r#"">afterglow</text>
</g>
</svg>"#@
}

fn render_history(p: &CardParts, t: &Palette) -> (r: String)
    ensures
        r@ == history_svg(p.words(), *t),
{
    let mut out = r#"<svg xmlns="http://www.w3.org/2000/svg" width="420" height="420" role="img" aria-label=""#.to_owned();
    out.append(p.aria.as_str());
    out.append(r#"">
<title>"#);
    out.append(p.aria.as_str());
    out.append(r#"</title>
<rect x=".5" y=".5" width="419" height="419" rx="6" fill=""#);
    out.append(t.canvas);
    out.append(r#"" stroke=""#);
    out.append(t.border);
    out.append(r#""/>
<g font-family="Helvetica,Arial,sans-serif">
<text x="16" y="27" font-size="13" font-weight="600" fill=""#);
    out.append(p.name_fill);
    out.append(r#"">"#);
    out.append(p.repo.as_str());
    out.append("</text>
");
    out.append(p.nums.as_str());
    out.append("
");
    out.append(p.pct.as_str());
    out.append("
");
    out.append(p.spark.as_str());
    out.append("
");
    out.append(p.footer.as_str());
    out.append(r#"
<text x="404" y="410" font-size="10.5" text-anchor="end" fill=""#);
    out.append(t.muted);
    out.append(r#"">afterglow</text>
</g>
</svg>"#);
    out
}

/// The void where a line will live.
pub open spec fn void_svg(t: Palette) -> Seq<char> {
    r#"<line x1="16" y1="240" x2="404" y2="240" stroke=""#@
        + t.muted@
        + r#"" stroke-width="1" stroke-dasharray="3,5" opacity=".6"/>"#@
}

fn void(t: &Palette) -> (r: String)
    ensures
        r@ == void_svg(*t),
{
    let mut out = r#"<line x1="16" y1="240" x2="404" y2="240" stroke=""#.to_owned();
    out.append(t.muted);
    out.append(r#"" stroke-width="1" stroke-dasharray="3,5" opacity=".6"/>"#);
    out
}

/// The line of a whole series.
pub open spec fn line_svg(points: Seq<Point>, t: Palette) -> Seq<char> {
    if points.len() == 0 {
        void_svg(t)
    } else {
        r#"<defs><linearGradient id="glow" x1="0" y1="0" x2="0" y2="1">
<stop offset="0" stop-color=""#@
            + t.spark@
            + r#"" stop-opacity=".3"/><stop offset="1" stop-color=""#@
            + t.spark@
            + r#"" stop-opacity="0"/>
</linearGradient></defs>
<path d="M"#@
            + join(point_texts(points, 160, 900), " L"@)
            + " L"@
            + coord_text(points.last().x + 160)
            + ",390 L"@
            + coord_text(points[0].x + 160)
            + r#",390 Z" fill="url(#glow)"/>
<polyline points=""#@
            + join(point_texts(points, 160, 900), " "@)
            + r#"" fill="none" stroke=""#@
            + t.spark@
            + r#"" stroke-width="1.5"/>"#@
    }
}

fn line_el(points: &Vec<Point>, t: &Palette) -> (r: String)
    ensures
        r@ == line_svg(points@, *t),
{
    if points.len() == 0 {
        return void(t);
    }
    let area = joined_points(points, " L", 160, 900);
    let line = joined_points(points, " ", 160, 900);
    let last = coord(points[points.len() - 1].x as i128 + 160);
    let first = coord(points[0].x as i128 + 160);
    let mut out = r#"<defs><linearGradient id="glow" x1="0" y1="0" x2="0" y2="1">
<stop offset="0" stop-color=""#.to_owned();
    out.append(t.spark);
    out.append(r#"" stop-opacity=".3"/><stop offset="1" stop-color=""#);
    out.append(t.spark);
    out.append(r#"" stop-opacity="0"/>
</linearGradient></defs>
<path d="M"#);
    out.append(area.as_str());
    out.append(" L");
    out.append(last.as_str());
    out.append(",390 L");
    out.append(first.as_str());
    out.append(r#",390 Z" fill="url(#glow)"/>
<polyline points=""#);
    out.append(line.as_str());
    out.append(r#"" fill="none" stroke=""#);
    out.append(t.spark);
    out.append(r#"" stroke-width="1.5"/>"#);
    out
}

pub open spec fn foot_svg(text: Seq<char>, t: Palette) -> Seq<char> {
    r#"<text x="16" y="410" font-size="10.5" font-weight="400" fill=""#@
        + t.muted@
        + r#"">"#@
        + text
        + "</text>"@
}

fn foot_el(text: &str, t: &Palette) -> (r: String)
    ensures
        r@ == foot_svg(text@, *t),
{
    let mut out = r#"<text x="16" y="410" font-size="10.5" font-weight="400" fill=""#.to_owned();
    out.append(t.muted);
    out.append(r#"">"#);
    out.append(text);
    out.append("</text>");
    out
}

/// What the history of a tracked repo says: the card's words, with the whole series in the
/// place of the last 30 days. A line is drawn only where the repo is measured.
pub open spec fn history_words(
    b: RepoBadge,
    line: Seq<Point>,
    t: Palette,
    fonts: Fonts,
) -> CardWords {
    CardWords {
        spark: if b.state is Measured {
            line_svg(line, t)
        } else {
            void_svg(t)
        },
        footer: foot_svg("all readings · tracked since "@ + escaped(b.tracked_since@), t),
        ..card_words(b, t, fonts)
    }
}

/// The history of a tracked repo.
pub open spec fn history_of(b: RepoBadge, line: Seq<Point>, theme: Theme, fonts: Fonts) -> Seq<char> {
    history_svg(history_words(b, line, palette_of(theme), fonts), palette_of(theme))
}

pub fn history(b: &RepoBadge, line: &Vec<Point>, theme: Theme, fonts: &Fonts) -> (r: String)
    requires
        b.state.wf(),
    ensures
        r@ == history_of(*b, line@, theme, *fonts),
{
    let t = theme.palette();
    let mut parts = card_parts(b, &t, fonts);
    parts.spark = match b.state {
        BadgeState::Measured { .. } => line_el(line, &t),
        _ => void(&t),
    };
    let mut text = "all readings · tracked since ".to_owned();
    text.append(xml_escape(b.tracked_since.as_str()).as_str());
    parts.footer = foot_el(text.as_str(), &t);
    render_history(&parts, &t)
}

/// The numbers across the top of the history are the card's, and so are its name and the
/// sentence it speaks: the two never disagree.
pub proof fn law_the_history_prints_the_cards_numbers(
    b: RepoBadge,
    line: Seq<Point>,
    t: Palette,
    fonts: Fonts,
)
    ensures
        history_words(b, line, t, fonts).nums == card_words(b, t, fonts).nums,
        history_words(b, line, t, fonts).pct == card_words(b, t, fonts).pct,
        history_words(b, line, t, fonts).aria == card_words(b, t, fonts).aria,
        history_words(b, line, t, fonts).repo == card_words(b, t, fonts).repo,
{
}

/// What the history of an untracked name says.
pub open spec fn not_tracked_history_of(full_name: Seq<char>, theme: Theme) -> Seq<char> {
    let t = palette_of(theme);
    history_svg(CardWords { spark: void_svg(t), ..not_tracked_card_words(full_name, t) }, t)
}

pub fn not_tracked_history(full_name: &str, theme: Theme) -> (r: String)
    ensures
        r@ == not_tracked_history_of(full_name@, theme),
{
    let t = theme.palette();
    let mut parts = not_tracked_parts(full_name, &t);
    parts.spark = void(&t);
    render_history(&parts, &t)
}

} // verus!
