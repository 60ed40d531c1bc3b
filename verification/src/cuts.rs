//! The other cuts of the pill, and the pill that prints the highest day.
//!
//! A README whose badge row has a style of its own asks for the pill in that style. Every cut
//! says what the pill says, in the colour that the pill says it in.

use vstd::prelude::*;

#[allow(unused_imports)]
use crate::badge::{
    commas, commas_text, delta, delta_text, escaped, gain_phrase, gain_text, lemma_half_even_near,
    not_tracked_pill_of, not_tracked_sentence, not_tracked_text, one_decimal, pill_of, pill_parts, pill_svg,
    pill_words, render_pill, tenths_text, xml_escape, Face, Fonts, PillGeometry, PillWords, RepoBadge, AMBER,
    NOT_TRACKED, PROXY_GREY, STAR, UNITS_PER_PX,
};
#[allow(unused_imports)]
use crate::round::{half_even, law_half_even_is_nearest, nearest, nearest_even};
#[allow(unused_imports)]
use crate::text::{integer, integer_text};
#[allow(unused_imports)]
use crate::velocity::opt_peak;

verus! {

/// How a pill is cut.
#[derive(Debug, Clone, Copy, PartialEq, Eq, Structural)]
pub enum Cut {
    Flat,
    FlatSquare,
    ForTheBadge,
    Social,
}

/// The pixels around the texts of a cut.
#[derive(Debug, Clone, Copy, PartialEq, Eq, Structural)]
pub struct Margins {
    /// Before the label: the star and its gaps.
    pub left: i64,
    /// Around the label, the star included.
    pub label: i64,
    /// Between the label's box and the value's.
    pub gap: i64,
    /// Around the value.
    pub value: i64,
}

pub open spec fn margins_of(cut: Cut) -> Margins {
    match cut {
        Cut::Flat => Margins { left: 20, label: 25, gap: 0, value: 10 },
        Cut::FlatSquare => Margins { left: 20, label: 25, gap: 0, value: 10 },
        Cut::ForTheBadge => Margins { left: 25, label: 34, gap: 0, value: 18 },
        Cut::Social => Margins { left: 20, label: 25, gap: 6, value: 12 },
    }
}

/// Where the parts of a cut stand, for a label and a value of given widths in font units.
pub open spec fn cut_geometry(cut: Cut, label: int, value: int) -> PillGeometry {
    let px = UNITS_PER_PX as int;
    let m = margins_of(cut);
    let label_width = half_even(10 * (m.label * px + label), px);
    let value_width = half_even(10 * (m.value * px + value), px);
    PillGeometry {
        label_width,
        value_width,
        width: label_width + 10 * m.gap + value_width,
        label_x: half_even(10 * (2 * m.left * px + label), 2 * px),
        value_x: half_even(2 * (label_width + 10 * m.gap) + value_width, 2),
        label_length: half_even(10 * label, px),
        value_length: half_even(10 * value, px),
    }
}

/// The boxes of a cut fit their texts to the tenth of a pixel, with the room that the cut leaves
/// around them; each text stands in the middle of its room and is as long as it measures.
pub proof fn law_a_cut_fits_its_texts(cut: Cut, label: int, value: int)
    ensures
        ({
            let g = cut_geometry(cut, label, value);
            let around_label: int = if cut == Cut::ForTheBadge {
                34
            } else {
                25
            };
            let around_value: int = if cut == Cut::ForTheBadge {
                18
            } else if cut == Cut::Social {
                12
            } else {
                10
            };
            let before: int = if cut == Cut::ForTheBadge {
                25
            } else {
                20
            };
            let gap: int = if cut == Cut::Social {
                60
            } else {
                0
            };
            &&& g.width == g.label_width + gap + g.value_width
            &&& nearest(g.label_width, 2048, 10 * (around_label * 2048 + label))
            &&& nearest(g.value_width, 2048, 10 * (around_value * 2048 + value))
            &&& nearest(g.label_length, 2048, 10 * label)
            &&& nearest(g.value_length, 2048, 10 * value)
            &&& nearest(g.label_x, 4096, 10 * (2 * before * 2048 + label))
            &&& nearest(g.value_x, 2, 2 * (g.label_width + gap) + g.value_width)
        }),
{
    let px = UNITS_PER_PX as int;
    let m = margins_of(cut);
    let g = cut_geometry(cut, label, value);
    law_half_even_is_nearest(10 * (m.label * px + label), px);
    law_half_even_is_nearest(10 * (m.value * px + value), px);
    law_half_even_is_nearest(10 * label, px);
    law_half_even_is_nearest(10 * value, px);
    law_half_even_is_nearest(10 * (2 * m.left * px + label), 2 * px);
    law_half_even_is_nearest(2 * (g.label_width + 10 * m.gap) + g.value_width, 2);
}

/// The geometry of a cut as it is printed.
struct Measures {
    width: String,
    label_width: String,
    value_width: String,
    value_left: String,
    label_x: String,
    value_x: String,
    label_length: String,
    value_length: String,
}

fn margins(cut: Cut) -> (r: Margins)
    ensures
        r == margins_of(cut),
{
    match cut {
        Cut::Flat => Margins { left: 20, label: 25, gap: 0, value: 10 },
        Cut::FlatSquare => Margins { left: 20, label: 25, gap: 0, value: 10 },
        Cut::ForTheBadge => Margins { left: 25, label: 34, gap: 0, value: 18 },
        Cut::Social => Margins { left: 20, label: 25, gap: 6, value: 12 },
    }
}

fn measure(cut: Cut, label: &str, value: &str, face: &Face) -> (r: Measures)
    ensures
        ({
            let g = cut_geometry(cut, face.width_of(label@), face.width_of(value@));
            &&& r.width@ == tenths_text(g.width)
            &&& r.label_width@ == tenths_text(g.label_width)
            &&& r.value_width@ == tenths_text(g.value_width)
            &&& r.value_left@ == tenths_text(g.width - g.value_width)
            &&& r.label_x@ == integer(g.label_x)
            &&& r.value_x@ == integer(g.value_x)
            &&& r.label_length@ == integer(g.label_length)
            &&& r.value_length@ == integer(g.value_length)
        }),
{
    let px: i128 = UNITS_PER_PX as i128;
    let m = margins(cut);
    let (left, around_label, around_value, gap): (i128, i128, i128, i128) = (
        m.left as i128,
        m.label as i128,
        m.value as i128,
        10 * m.gap as i128,
    );
    let lw = face.text_width(label);
    let vw = face.text_width(value);
    let label_tenths = nearest_even(10 * (around_label * px + lw), px);
    let value_tenths = nearest_even(10 * (around_value * px + vw), px);
    proof {
        lemma_half_even_near(10 * (around_label * px + lw), px as int);
        lemma_half_even_near(10 * (around_value * px + vw), px as int);
    }
    Measures {
        width: one_decimal(label_tenths + gap + value_tenths),
        label_width: one_decimal(label_tenths),
        value_width: one_decimal(value_tenths),
        value_left: one_decimal(label_tenths + gap),
        label_x: integer_text(nearest_even(10 * (2 * left * px + lw), 2 * px)),
        value_x: integer_text(nearest_even(2 * (label_tenths + gap) + value_tenths, 2)),
        label_length: integer_text(nearest_even(10 * lw, px)),
        value_length: integer_text(nearest_even(10 * vw, px)),
    }
}

/// A pill with square corners.
pub open spec fn square_svg(
    label: Seq<char>,
    value: Seq<char>,
    value_bg: Seq<char>,
    aria: Seq<char>,
    face: Face,
) -> Seq<char> {
    let g = cut_geometry(Cut::FlatSquare, face.width_of(label), face.width_of(value));
    r#"<svg xmlns="http://www.w3.org/2000/svg" width=""#@
        + tenths_text(g.width)
        + r#"" height="20" role="img" aria-label=""#@
        + aria
        + r#"">
<title>"#@
        + aria
        + r#"</title>
<g shape-rendering="crispEdges">
<rect width=""#@
        + tenths_text(g.label_width)
        + r##"" height="20" fill="#555555"/>
<rect x=""##@
        + tenths_text(g.label_width)
        + r#"" width=""#@
        + tenths_text(g.value_width)
        + r#"" height="20" fill=""#@
        + value_bg
        + r##""/>
</g>
<path transform="translate(5,4) scale(0.75)" fill="#eac54f" d=""##@
        + STAR@
        + r#""/>
<g text-anchor="middle" font-family="Verdana,Geneva,DejaVu Sans,sans-serif" font-size="110" text-rendering="geometricPrecision">
<text x=""#@
        + integer(g.label_x)
        + r##"" y="140" fill="#fff" transform="scale(.1)" textLength=""##@
        + integer(g.label_length)
        + r#"">"#@
        + label
        + r#"</text>
<text x=""#@
        + integer(g.value_x)
        + r##"" y="140" fill="#24292f" transform="scale(.1)" textLength=""##@
        + integer(g.value_length)
        + r#"">"#@
        + value
        + "</text>
</g>
</svg>"@
}

fn render_square(label: &str, value: &str, value_bg: &str, aria: &str, face: &Face) -> (r: String)
    ensures
        r@ == square_svg(label@, value@, value_bg@, aria@, *face),
{
    let m = measure(Cut::FlatSquare, label, value, face);
    let mut out = r#"<svg xmlns="http://www.w3.org/2000/svg" width=""#.to_owned();
    out.append(m.width.as_str());
    out.append(r#"" height="20" role="img" aria-label=""#);
    out.append(aria);
    out.append(r#"">
<title>"#);
    out.append(aria);
    out.append(r#"</title>
<g shape-rendering="crispEdges">
<rect width=""#);
    out.append(m.label_width.as_str());
    out.append(r##"" height="20" fill="#555555"/>
<rect x=""##);
    out.append(m.label_width.as_str());
    out.append(r#"" width=""#);
    out.append(m.value_width.as_str());
    out.append(r#"" height="20" fill=""#);
    out.append(value_bg);
    out.append(r##""/>
</g>
<path transform="translate(5,4) scale(0.75)" fill="#eac54f" d=""##);
    out.append(STAR);
    out.append(r#""/>
<g text-anchor="middle" font-family="Verdana,Geneva,DejaVu Sans,sans-serif" font-size="110" text-rendering="geometricPrecision">
<text x=""#);
    out.append(m.label_x.as_str());
    out.append(r##"" y="140" fill="#fff" transform="scale(.1)" textLength=""##);
    out.append(m.label_length.as_str());
    out.append(r#"">"#);
    out.append(label);
    out.append(r#"</text>
<text x=""#);
    out.append(m.value_x.as_str());
    out.append(r##"" y="140" fill="#24292f" transform="scale(.1)" textLength=""##);
    out.append(m.value_length.as_str());
    out.append(r#"">"#);
    out.append(value);
    out.append("</text>
</g>
</svg>");
    out
}

/// A tall pill, for a README whose badges are.
pub open spec fn banner_svg(
    label: Seq<char>,
    value: Seq<char>,
    value_bg: Seq<char>,
    aria: Seq<char>,
    face: Face,
) -> Seq<char> {
    let g = cut_geometry(Cut::ForTheBadge, face.width_of(label), face.width_of(value));
    r#"<svg xmlns="http://www.w3.org/2000/svg" width=""#@
        + tenths_text(g.width)
        + r#"" height="28" role="img" aria-label=""#@
        + aria
        + r#"">
<title>"#@
        + aria
        + r#"</title>
<g shape-rendering="crispEdges">
<rect width=""#@
        + tenths_text(g.label_width)
        + r##"" height="28" fill="#555555"/>
<rect x=""##@
        + tenths_text(g.label_width)
        + r#"" width=""#@
        + tenths_text(g.value_width)
        + r#"" height="28" fill=""#@
        + value_bg
        + r##""/>
</g>
<path transform="translate(9,8) scale(0.75)" fill="#eac54f" d=""##@
        + STAR@
        + r#""/>
<g text-anchor="middle" font-family="Verdana,Geneva,DejaVu Sans,sans-serif" font-size="110" text-rendering="geometricPrecision">
<text x=""#@
        + integer(g.label_x)
        + r##"" y="180" fill="#fff" transform="scale(.1)" textLength=""##@
        + integer(g.label_length)
        + r#"">"#@
        + label
        + r#"</text>
<text x=""#@
        + integer(g.value_x)
        + r##"" y="180" fill="#24292f" font-weight="bold" transform="scale(.1)" textLength=""##@
        + integer(g.value_length)
        + r#"">"#@
        + value
        + "</text>
</g>
</svg>"@
}

fn render_banner(label: &str, value: &str, value_bg: &str, aria: &str, face: &Face) -> (r: String)
    ensures
        r@ == banner_svg(label@, value@, value_bg@, aria@, *face),
{
    let m = measure(Cut::ForTheBadge, label, value, face);
    let mut out = r#"<svg xmlns="http://www.w3.org/2000/svg" width=""#.to_owned();
    out.append(m.width.as_str());
    out.append(r#"" height="28" role="img" aria-label=""#);
    out.append(aria);
    out.append(r#"">
<title>"#);
    out.append(aria);
    out.append(r#"</title>
<g shape-rendering="crispEdges">
<rect width=""#);
    out.append(m.label_width.as_str());
    out.append(r##"" height="28" fill="#555555"/>
<rect x=""##);
    out.append(m.label_width.as_str());
    out.append(r#"" width=""#);
    out.append(m.value_width.as_str());
    out.append(r#"" height="28" fill=""#);
    out.append(value_bg);
    out.append(r##""/>
</g>
<path transform="translate(9,8) scale(0.75)" fill="#eac54f" d=""##);
    out.append(STAR);
    out.append(r#""/>
<g text-anchor="middle" font-family="Verdana,Geneva,DejaVu Sans,sans-serif" font-size="110" text-rendering="geometricPrecision">
<text x=""#);
    out.append(m.label_x.as_str());
    out.append(r##"" y="180" fill="#fff" transform="scale(.1)" textLength=""##);
    out.append(m.label_length.as_str());
    out.append(r#"">"#);
    out.append(label);
    out.append(r#"</text>
<text x=""#);
    out.append(m.value_x.as_str());
    out.append(r##"" y="180" fill="#24292f" font-weight="bold" transform="scale(.1)" textLength=""##);
    out.append(m.value_length.as_str());
    out.append(r#"">"#);
    out.append(value);
    out.append("</text>
</g>
</svg>");
    out
}

/// A light pill with its value in a frame of its own. The frame wears the colour that the value's
/// background has elsewhere, so only a measurement is framed in amber.
pub open spec fn social_svg(
    label: Seq<char>,
    value: Seq<char>,
    value_bg: Seq<char>,
    aria: Seq<char>,
    face: Face,
) -> Seq<char> {
    let g = cut_geometry(Cut::Social, face.width_of(label), face.width_of(value));
    r#"<svg xmlns="http://www.w3.org/2000/svg" width=""#@
        + tenths_text(g.width)
        + r#"" height="20" role="img" aria-label=""#@
        + aria
        + r#"">
<title>"#@
        + aria
        + r#"</title>
<rect x=".5" y=".5" width=""#@
        + tenths_text(g.label_width)
        + r##"" height="19" rx="2" fill="#fafafa" stroke="#d5d5d5"/>
<rect x=""##@
        + tenths_text(g.width - g.value_width)
        + r#"" y=".5" width=""#@
        + tenths_text(g.value_width)
        + r##"" height="19" rx="2" fill="#fafafa" stroke=""##@
        + value_bg
        + r##""/>
<path transform="translate(5,4) scale(0.75)" fill="#24292f" d=""##@
        + STAR@
        + r#""/>
<g text-anchor="middle" font-family="Helvetica Neue,Helvetica,Arial,sans-serif" font-weight="700" font-size="110" text-rendering="geometricPrecision">
<text x=""#@
        + integer(g.label_x)
        + r##"" y="140" fill="#24292f" transform="scale(.1)" textLength=""##@
        + integer(g.label_length)
        + r#"">"#@
        + label
        + r#"</text>
<text x=""#@
        + integer(g.value_x)
        + r##"" y="140" fill="#24292f" transform="scale(.1)" textLength=""##@
        + integer(g.value_length)
        + r#"">"#@
        + value
        + "</text>
</g>
</svg>"@
}

fn render_social(label: &str, value: &str, value_bg: &str, aria: &str, face: &Face) -> (r: String)
    ensures
        r@ == social_svg(label@, value@, value_bg@, aria@, *face),
{
    let m = measure(Cut::Social, label, value, face);
    let mut out = r#"<svg xmlns="http://www.w3.org/2000/svg" width=""#.to_owned();
    out.append(m.width.as_str());
    out.append(r#"" height="20" role="img" aria-label=""#);
    out.append(aria);
    out.append(r#"">
<title>"#);
    out.append(aria);
    out.append(r#"</title>
<rect x=".5" y=".5" width=""#);
    out.append(m.label_width.as_str());
    out.append(r##"" height="19" rx="2" fill="#fafafa" stroke="#d5d5d5"/>
<rect x=""##);
    out.append(m.value_left.as_str());
    out.append(r#"" y=".5" width=""#);
    out.append(m.value_width.as_str());
    out.append(r##"" height="19" rx="2" fill="#fafafa" stroke=""##);
    out.append(value_bg);
    out.append(r##""/>
<path transform="translate(5,4) scale(0.75)" fill="#24292f" d=""##);
    out.append(STAR);
    out.append(r#""/>
<g text-anchor="middle" font-family="Helvetica Neue,Helvetica,Arial,sans-serif" font-weight="700" font-size="110" text-rendering="geometricPrecision">
<text x=""#);
    out.append(m.label_x.as_str());
    out.append(r##"" y="140" fill="#24292f" transform="scale(.1)" textLength=""##);
    out.append(m.label_length.as_str());
    out.append(r#"">"#);
    out.append(label);
    out.append(r#"</text>
<text x=""#);
    out.append(m.value_x.as_str());
    out.append(r##"" y="140" fill="#24292f" transform="scale(.1)" textLength=""##);
    out.append(m.value_length.as_str());
    out.append(r#"">"#);
    out.append(value);
    out.append("</text>
</g>
</svg>");
    out
}

/// A cut with its label, its value, the value's background and the sentence it speaks.
pub open spec fn cut_svg(
    cut: Cut,
    label: Seq<char>,
    value: Seq<char>,
    value_bg: Seq<char>,
    aria: Seq<char>,
    face: Face,
) -> Seq<char> {
    match cut {
        Cut::Flat => pill_svg(label, value, value_bg, aria, face),
        Cut::FlatSquare => square_svg(label, value, value_bg, aria, face),
        Cut::ForTheBadge => banner_svg(label, value, value_bg, aria, face),
        Cut::Social => social_svg(label, value, value_bg, aria, face),
    }
}

pub fn render_cut(
    cut: Cut,
    label: &str,
    value: &str,
    value_bg: &str,
    aria: &str,
    face: &Face,
) -> (r: String)
    ensures
        r@ == cut_svg(cut, label@, value@, value_bg@, aria@, *face),
{
    match cut {
        Cut::Flat => render_pill(label, value, value_bg, aria, face),
        Cut::FlatSquare => render_square(label, value, value_bg, aria, face),
        Cut::ForTheBadge => render_banner(label, value, value_bg, aria, face),
        Cut::Social => render_social(label, value, value_bg, aria, face),
    }
}

// ---------------------------------------------------------------- what a cut says

/// The pill of a tracked repo in a cut.
pub open spec fn pill_cut_of(b: RepoBadge, cut: Cut, fonts: Fonts) -> Seq<char> {
    let words = pill_words(b);
    cut_svg(cut, commas_text(b.stars as int), words.value, words.bg, words.aria, fonts.verdana_11)
}

pub fn pill_cut(b: &RepoBadge, cut: Cut, fonts: &Fonts) -> (r: String)
    ensures
        r@ == pill_cut_of(*b, cut, *fonts),
{
    let count = commas(b.stars);
    let parts = pill_parts(b);
    render_cut(
        cut,
        count.as_str(),
        parts.value.as_str(),
        parts.bg,
        parts.aria.as_str(),
        &fonts.verdana_11,
    )
}

/// The pill of a name that is not tracked, in a cut.
pub open spec fn not_tracked_cut_of(full_name: Seq<char>, cut: Cut, fonts: Fonts) -> Seq<char> {
    cut_svg(
        cut,
        "afterglow"@,
        NOT_TRACKED@,
        PROXY_GREY@,
        not_tracked_text(full_name),
        fonts.verdana_11,
    )
}

pub fn not_tracked_cut(full_name: &str, cut: Cut, fonts: &Fonts) -> (r: String)
    ensures
        r@ == not_tracked_cut_of(full_name@, cut, *fonts),
{
    let aria = not_tracked_sentence(full_name);
    render_cut(cut, "afterglow", NOT_TRACKED, PROXY_GREY, aria.as_str(), &fonts.verdana_11)
}

/// What the pill of the highest day says: the rate and its date, or what the pill itself says
/// where no rate was ever measured.
pub open spec fn peak_words(b: RepoBadge, peak: Option<(int, Seq<char>)>) -> PillWords {
    match peak {
        Some((rate, date)) => PillWords {
            value: "peak "@ + delta_text(rate) + " · "@ + escaped(date),
            bg: AMBER@,
            aria: "afterglow: "@ + commas_text(b.stars as int) + " stars, peak "@ + gain_text(rate)
                + " on "@ + escaped(date),
        },
        None => pill_words(b),
    }
}

/// The pill of the highest day that was ever measured, in a cut.
pub open spec fn peak_cut_of(
    b: RepoBadge,
    peak: Option<(int, Seq<char>)>,
    cut: Cut,
    fonts: Fonts,
) -> Seq<char> {
    let words = peak_words(b, peak);
    cut_svg(cut, commas_text(b.stars as int), words.value, words.bg, words.aria, fonts.verdana_11)
}

pub fn peak_cut(
    b: &RepoBadge,
    peak: &Option<(i64, String)>,
    cut: Cut,
    fonts: &Fonts,
) -> (r: String)
    ensures
        r@ == peak_cut_of(*b, opt_peak(*peak), cut, *fonts),
{
    let (rate, date) = match peak {
        Some((rate, date)) => (*rate, xml_escape(date.as_str())),
        None => return pill_cut(b, cut, fonts),
    };
    let count = commas(b.stars);
    let mut value = "peak ".to_owned();
    value.append(delta(rate).as_str());
    value.append(" · ");
    value.append(date.as_str());
    let mut aria = "afterglow: ".to_owned();
    aria.append(count.as_str());
    aria.append(" stars, peak ");
    aria.append(gain_phrase(rate).as_str());
    aria.append(" on ");
    aria.append(date.as_str());
    render_cut(cut, count.as_str(), value.as_str(), AMBER, aria.as_str(), &fonts.verdana_11)
}

/// The flat cut is the pill itself.
pub proof fn law_the_flat_cut_is_the_pill(b: RepoBadge, full_name: Seq<char>, fonts: Fonts)
    ensures
        pill_cut_of(b, Cut::Flat, fonts) == pill_of(b, fonts),
        not_tracked_cut_of(full_name, Cut::Flat, fonts) == not_tracked_pill_of(full_name, fonts),
{
}

/// Amber renders on measurements alone: a peak is one, and without a peak the colour is the
/// pill's own.
pub proof fn law_only_measured_peaks_are_amber(b: RepoBadge, peak: Option<(int, Seq<char>)>)
    ensures
        peak is Some ==> peak_words(b, peak).bg == AMBER@,
        peak is None ==> peak_words(b, peak) == pill_words(b),
        peak is None && !(b.state is Measured) ==> peak_words(b, peak).bg == PROXY_GREY@,
{
}

} // verus!
