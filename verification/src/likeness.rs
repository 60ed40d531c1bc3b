//! Which images are alike: no two shapes of a repo are.

use vstd::prelude::*;

#[allow(unused_imports)]
use crate::badge::{
    card_svg, card_words, commas_text, direction_text, gain_text, grouped, palette_of, pill_words, tenths_text,
    tenths_text_of, BadgeState, CardWords, Face, Fonts, RepoBadge, Theme,
};
#[allow(unused_imports)]
use crate::cuts::{cut_geometry, cut_svg, peak_words, Cut};
#[allow(unused_imports)]
use crate::history::{history_svg, history_words};
#[allow(unused_imports)]
use crate::serve::{rendered, Portrait, Shape};
#[allow(unused_imports)]
use crate::text::{decimal, lemma_decimal_digits, starts_with};

verus! {

broadcast proof fn lemma_start_stays(a: Seq<char>, b: Seq<char>, start: Seq<char>)
    requires
        starts_with(a, start),
    ensures
        #[trigger] starts_with(a + b, start),
{
    assert((a + b).take(start.len() as int) =~= a.take(start.len() as int));
}

/// Two texts that begin one text agree as far as both go.
proof fn lemma_starts_agree(s: Seq<char>, one: Seq<char>, other: Seq<char>, i: int)
    requires
        starts_with(s, one),
        starts_with(s, other),
        0 <= i < one.len(),
        i < other.len(),
    ensures
        one[i] == other[i],
{
    assert(s.take(one.len() as int)[i] == s[i]);
    assert(s.take(other.len() as int)[i] == s[i]);
}

// ---------------------------------------------------------------- how an image opens

/// What an image of a width opens with: the rest begins with the quote that ends the width.
spec fn opening(width: Seq<char>, rest: Seq<char>) -> Seq<char> {
    r#"<svg xmlns="http://www.w3.org/2000/svg" width=""#@ + width + rest
}

/// Two openings of one text have the same width and go on the same way.
proof fn lemma_openings_agree(
    s: Seq<char>,
    width: Seq<char>,
    rest: Seq<char>,
    other_width: Seq<char>,
    other_rest: Seq<char>,
)
    requires
        starts_with(s, opening(width, rest)),
        starts_with(s, opening(other_width, other_rest)),
        rest.len() > 0 && rest[0] == '"',
        other_rest.len() > 0 && other_rest[0] == '"',
        forall|i: int| 0 <= i < width.len() ==> width[i] != '"',
        forall|i: int| 0 <= i < other_width.len() ==> other_width[i] != '"',
    ensures
        width == other_width,
        forall|i: int| 0 <= i < rest.len() && i < other_rest.len() ==> rest[i] == other_rest[i],
{
    let at = r#"<svg xmlns="http://www.w3.org/2000/svg" width=""#@.len();
    let one = opening(width, rest);
    let other = opening(other_width, other_rest);
    if width.len() < other_width.len() {
        let i = at + width.len();
        lemma_starts_agree(s, one, other, i as int);
        assert(one[i as int] == rest[0]);
        assert(other[i as int] == other_width[width.len() as int]);
    } else if width.len() > other_width.len() {
        let i = at + other_width.len();
        lemma_starts_agree(s, one, other, i as int);
        assert(other[i as int] == other_rest[0]);
        assert(one[i as int] == width[other_width.len() as int]);
    }
    assert forall|i: int| 0 <= i < width.len() implies width[i] == other_width[i] by {
        lemma_starts_agree(s, one, other, at + i);
        assert(one[at + i] == width[i] && other[at + i] == other_width[i]);
    }
    assert(width =~= other_width);
    assert forall|i: int| 0 <= i < rest.len() && i < other_rest.len() implies rest[i]
        == other_rest[i] by {
        let j = at + width.len() + i;
        lemma_starts_agree(s, one, other, j);
        assert(one[j] == rest[i] && other[j] == other_rest[i]);
    }
}

/// A width in tenths holds no quote, and its point stands before its last digit.
proof fn lemma_tenths(t: int)
    ensures
        tenths_text(t).len() >= 3,
        tenths_text(t)[tenths_text(t).len() - 2] == '.',
        forall|i: int| 0 <= i < tenths_text(t).len() ==> tenths_text(t)[i] != '"',
{
    let n = (if t < 0 {
        -t
    } else {
        t
    }) as nat;
    reveal_strlit(".");
    reveal_strlit("-");
    lemma_decimal_digits(n / 10);
    lemma_decimal_digits(n % 10);
    let text = tenths_text_of(n);
    assert(decimal(n % 10).len() == 1);
    assert(text.len() == decimal(n / 10).len() + 2);
    assert(text[text.len() - 2] == '.');
    assert forall|i: int| 0 <= i < text.len() implies text[i] != '"' by {
        if i < decimal(n / 10).len() {
            assert(text[i] == decimal(n / 10)[i]);
        } else if i > decimal(n / 10).len() {
            assert(text[i] == decimal(n % 10)[0]);
        }
    }
    if t < 0 {
        let signed = "-"@ + text;
        assert(tenths_text(t) == signed);
        assert(signed[signed.len() - 2] == text[text.len() - 2]);
        assert forall|i: int| 0 <= i < signed.len() implies signed[i] != '"' by {
            if i > 0 {
                assert(signed[i] == text[i - 1]);
            }
        }
    }
}

// ---------------------------------------------------------------- cuts

/// What follows the width of a cut, as far as its height.
spec fn height_of(cut: Cut) -> Seq<char> {
    match cut {
        Cut::ForTheBadge => r#"" height="28" role="img" aria-label=""#@,
        _ => r#"" height="20" role="img" aria-label=""#@,
    }
}

/// What follows the sentence of a cut.
spec fn body_of(cut: Cut) -> Seq<char> {
    match cut {
        Cut::Flat => r#"</title>
<clipPath id="r"><rect width=""#@,
        Cut::FlatSquare => r#"</title>
<g shape-rendering="crispEdges">
<rect width=""#@,
        Cut::ForTheBadge => r#"</title>
<g shape-rendering="crispEdges">
<rect width=""#@,
        Cut::Social => r#"</title>
<rect x=".5" y=".5" width=""#@,
    }
}

spec fn cut_rest(cut: Cut, aria: Seq<char>) -> Seq<char> {
    height_of(cut) + aria + r#"">
<title>"#@ + aria + body_of(cut)
}

/// How a cut opens.
#[verifier::spinoff_prover]
#[verifier::rlimit(60)]
proof fn lemma_cut_opens(
    cut: Cut,
    label: Seq<char>,
    value: Seq<char>,
    value_bg: Seq<char>,
    aria: Seq<char>,
    face: Face,
)
    ensures
        ({
            let g = cut_geometry(cut, face.width_of(label), face.width_of(value));
            starts_with(
                cut_svg(cut, label, value, value_bg, aria, face),
                opening(tenths_text(g.width), cut_rest(cut, aria)),
            )
        }),
{
    broadcast use lemma_start_stays;

    let g = cut_geometry(cut, face.width_of(label), face.width_of(value));
    let begin = r#"<svg xmlns="http://www.w3.org/2000/svg" width=""#@ + tenths_text(g.width)
        + height_of(cut) + aria + r#"">
<title>"#@ + aria + body_of(cut);
    assert(begin =~= opening(tenths_text(g.width), cut_rest(cut, aria)));
    assert(begin.take(begin.len() as int) =~= begin);
    assert(starts_with(begin, begin));
}

/// The sentence of a cut stands at the same place in every cut, and so does its body.
proof fn lemma_rest(cut: Cut, aria: Seq<char>)
    ensures
        cut_rest(cut, aria).len() > 57 + 2 * aria.len(),
        cut_rest(cut, aria)[0] == '"',
        cut_rest(cut, aria)[11] == if cut == Cut::ForTheBadge {
            '8'
        } else {
            '0'
        },
        forall|k: int| 0 <= k < aria.len() ==> cut_rest(cut, aria)[37 + k] == aria[k],
        cut_rest(cut, aria)[57int + 2 * aria.len()] == match cut {
            Cut::Flat => 'c',
            Cut::Social => 'r',
            _ => 'g',
        },
{
    reveal_strlit(r#"" height="28" role="img" aria-label=""#);
    reveal_strlit(r#"" height="20" role="img" aria-label=""#);
    reveal_strlit(r#"">
<title>"#);
    reveal_strlit(r#"</title>
<clipPath id="r"><rect width=""#);
    reveal_strlit(r#"</title>
<g shape-rendering="crispEdges">
<rect width=""#);
    reveal_strlit(r#"</title>
<rect x=".5" y=".5" width=""#);
    assert(height_of(cut).len() == 37);
    let rest = cut_rest(cut, aria);
    assert(rest[0] == height_of(cut)[0] && rest[11] == height_of(cut)[11]);
    assert(rest[57int + 2 * aria.len()] == body_of(cut)[10]);
}

/// Two cuts that say the same are two images.
proof fn lemma_cuts_differ(
    one: Cut,
    other: Cut,
    label: Seq<char>,
    value: Seq<char>,
    value_bg: Seq<char>,
    aria: Seq<char>,
    face: Face,
)
    requires
        one != other,
    ensures
        cut_svg(one, label, value, value_bg, aria, face) != cut_svg(
            other,
            label,
            value,
            value_bg,
            aria,
            face,
        ),
{
    let s = cut_svg(one, label, value, value_bg, aria, face);
    if s == cut_svg(other, label, value, value_bg, aria, face) {
        let w = cut_geometry(one, face.width_of(label), face.width_of(value)).width;
        let v = cut_geometry(other, face.width_of(label), face.width_of(value)).width;
        lemma_cut_opens(one, label, value, value_bg, aria, face);
        lemma_cut_opens(other, label, value, value_bg, aria, face);
        lemma_tenths(w);
        lemma_tenths(v);
        lemma_rest(one, aria);
        lemma_rest(other, aria);
        lemma_openings_agree(
            s,
            tenths_text(w),
            cut_rest(one, aria),
            tenths_text(v),
            cut_rest(other, aria),
        );
        let i: int = 57int + 2 * aria.len();
        assert(cut_rest(one, aria)[11] == cut_rest(other, aria)[11]);
        assert(cut_rest(one, aria)[i] == cut_rest(other, aria)[i]);
    }
}

/// Two cuts that speak different sentences are two images.
proof fn lemma_sentences_differ(
    one: Cut,
    other: Cut,
    label: Seq<char>,
    value: Seq<char>,
    bg: Seq<char>,
    aria: Seq<char>,
    other_value: Seq<char>,
    other_bg: Seq<char>,
    other_aria: Seq<char>,
    face: Face,
    k: int,
)
    requires
        0 <= k < aria.len(),
        k < other_aria.len(),
        aria[k] != other_aria[k],
    ensures
        cut_svg(one, label, value, bg, aria, face) != cut_svg(
            other,
            label,
            other_value,
            other_bg,
            other_aria,
            face,
        ),
{
    let s = cut_svg(one, label, value, bg, aria, face);
    if s == cut_svg(other, label, other_value, other_bg, other_aria, face) {
        let w = cut_geometry(one, face.width_of(label), face.width_of(value)).width;
        let v = cut_geometry(other, face.width_of(label), face.width_of(other_value)).width;
        lemma_cut_opens(one, label, value, bg, aria, face);
        lemma_cut_opens(other, label, other_value, other_bg, other_aria, face);
        lemma_tenths(w);
        lemma_tenths(v);
        lemma_rest(one, aria);
        lemma_rest(other, other_aria);
        lemma_openings_agree(
            s,
            tenths_text(w),
            cut_rest(one, aria),
            tenths_text(v),
            cut_rest(other, other_aria),
        );
        assert(cut_rest(one, aria)[37 + k] == cut_rest(other, other_aria)[37 + k]);
    }
}

/// Where the sentence of a peak leaves that of the pill.
#[verifier::spinoff_prover]
#[verifier::rlimit(60)]
proof fn lemma_peaks_speak_apart(b: RepoBadge, peak: (int, Seq<char>)) -> (k: int)
    ensures
        0 <= k < pill_words(b).aria.len(),
        k < peak_words(b, Some(peak)).aria.len(),
        pill_words(b).aria[k] != peak_words(b, Some(peak)).aria[k],
{
    let one = pill_words(b).aria;
    let other = peak_words(b, Some(peak)).aria;
    let count = commas_text(b.stars as int);
    reveal_strlit("afterglow: ");
    reveal_strlit(" stars, peak ");
    if b.state is Enrolled {
        reveal_strlit("afterglow: tracking started ");
        lemma_count_begins(b.stars as int);
        assert(one[11] == 't');
        assert(other[11] == count[0]);
        11
    } else {
        let k: int = 11int + count.len() + 8;
        assert(other[k] == 'p') by {
            assert(other[k] == " stars, peak "@[8]);
        }
        match b.state {
            BadgeState::Measured { velocity, .. } => {
                reveal_strlit(" stars, ");
                reveal_strlit("gaining");
                reveal_strlit("losing");
                let gain = gain_text(velocity as int);
                assert(gain[0] == direction_text(velocity as int)[0]);
                assert(one[k] == gain[0]);
            },
            BadgeState::Proxy { avg } => {
                reveal_strlit(" stars, about ");
                assert(one[k] == " stars, about "@[8]);
            },
            BadgeState::Measuring => {
                reveal_strlit(" stars, measuring — first reading tomorrow");
                assert(one[k] == " stars, measuring — first reading tomorrow"@[8]);
            },
            BadgeState::Enrolled => {},
            BadgeState::Paused => {
                reveal_strlit(" stars, tracking paused");
                assert(one[k] == " stars, tracking paused"@[8]);
            },
        }
        k
    }
}

proof fn lemma_count_begins(n: int)
    ensures
        commas_text(n).len() > 0,
        commas_text(n)[0] == '-' || '0' <= commas_text(n)[0] <= '9',
{
    if n < 0 {
        assert(commas_text(n)[0] == '-');
    } else {
        lemma_grouped_begins(n as nat);
    }
}

proof fn lemma_grouped_begins(n: nat)
    ensures
        grouped(n).len() > 0,
        '0' <= grouped(n)[0] <= '9',
    decreases n,
{
    if n < 1000 {
        lemma_decimal_digits(n);
        assert('0' <= decimal(n)[0] <= '9');
    } else {
        lemma_grouped_begins(n / 1000);
        assert(grouped(n)[0] == grouped(n / 1000)[0]);
    }
}

// ---------------------------------------------------------------- cards and histories

/// What follows the width of a card or of a history, as far as the name of its sentence.
spec fn tall(high: bool) -> Seq<char> {
    if high {
        r#"" height="420" role="img" aria-label=""#@
    } else {
        r#"" height="150" role="img" aria-label=""#@
    }
}

/// The opening of a card or of a history as far as the colour of its canvas.
spec fn themed(high: bool, aria: Seq<char>, theme: Theme) -> Seq<char> {
    opening("420"@, tall(high)) + aria + r#"">
<title>"#@ + aria + (if high {
        r#"</title>
<rect x=".5" y=".5" width="419" height="419" rx="6" fill=""#@
    } else {
        r#"</title>
<rect x=".5" y=".5" width="419" height="149" rx="6" fill=""#@
    }) + palette_of(theme).canvas@
}

#[verifier::spinoff_prover]
#[verifier::rlimit(60)]
proof fn lemma_themed_opens(p: CardWords, theme: Theme)
    ensures
        starts_with(card_svg(p, palette_of(theme)), themed(false, p.aria, theme)),
        starts_with(history_svg(p, palette_of(theme)), themed(true, p.aria, theme)),
        starts_with(themed(false, p.aria, theme), opening("420"@, tall(false))),
        starts_with(themed(true, p.aria, theme), opening("420"@, tall(true))),
{
    broadcast use lemma_start_stays;

    assert(opening("420"@, tall(false))
        =~= r#"<svg xmlns="http://www.w3.org/2000/svg" width="420" height="150" role="img" aria-label=""#@)
        by {
        reveal_strlit(r#"<svg xmlns="http://www.w3.org/2000/svg" width=""#);
        reveal_strlit("420");
        reveal_strlit(r#"" height="150" role="img" aria-label=""#);
        reveal_strlit(
            r#"<svg xmlns="http://www.w3.org/2000/svg" width="420" height="150" role="img" aria-label=""#,
        );
    }
    assert(opening("420"@, tall(true))
        =~= r#"<svg xmlns="http://www.w3.org/2000/svg" width="420" height="420" role="img" aria-label=""#@)
        by {
        reveal_strlit(r#"<svg xmlns="http://www.w3.org/2000/svg" width=""#);
        reveal_strlit("420");
        reveal_strlit(r#"" height="420" role="img" aria-label=""#);
        reveal_strlit(
            r#"<svg xmlns="http://www.w3.org/2000/svg" width="420" height="420" role="img" aria-label=""#,
        );
    }
    let card = themed(false, p.aria, theme);
    let square = themed(true, p.aria, theme);
    assert(card.take(card.len() as int) =~= card);
    assert(square.take(square.len() as int) =~= square);
    let low = opening("420"@, tall(false));
    let high = opening("420"@, tall(true));
    assert(low.take(low.len() as int) =~= low);
    assert(high.take(high.len() as int) =~= high);
}

/// A card or a history is no pill: the widths of the two are printed differently.
proof fn lemma_pills_are_no_cards(
    high: bool,
    s: Seq<char>,
    cut: Cut,
    label: Seq<char>,
    value: Seq<char>,
    bg: Seq<char>,
    aria: Seq<char>,
    face: Face,
)
    requires
        starts_with(s, opening("420"@, tall(high))),
    ensures
        s != cut_svg(cut, label, value, bg, aria, face),
{
    if s == cut_svg(cut, label, value, bg, aria, face) {
        let w = cut_geometry(cut, face.width_of(label), face.width_of(value)).width;
        lemma_cut_opens(cut, label, value, bg, aria, face);
        lemma_tenths(w);
        lemma_rest(cut, aria);
        reveal_strlit("420");
        reveal_strlit(r#"" height="420" role="img" aria-label=""#);
        reveal_strlit(r#"" height="150" role="img" aria-label=""#);
        lemma_openings_agree(s, "420"@, tall(high), tenths_text(w), cut_rest(cut, aria));
    }
}

/// A text that begins the beginning of another begins it.
proof fn lemma_starts_chain(s: Seq<char>, middle: Seq<char>, start: Seq<char>)
    requires
        starts_with(s, middle),
        starts_with(middle, start),
    ensures
        starts_with(s, start),
{
    assert(s.take(start.len() as int) =~= s.take(middle.len() as int).take(start.len() as int));
}

/// A card and a history are two images, and so are two themes of either.
#[verifier::spinoff_prover]
#[verifier::rlimit(60)]
proof fn lemma_themed_differ(
    s: Seq<char>,
    high: bool,
    other_high: bool,
    aria: Seq<char>,
    theme: Theme,
    other: Theme,
)
    requires
        starts_with(s, themed(high, aria, theme)),
        starts_with(s, themed(other_high, aria, other)),
    ensures
        high == other_high,
        theme == other,
{
    let a = themed(high, aria, theme);
    let b = themed(other_high, aria, other);
    reveal_strlit(r#"<svg xmlns="http://www.w3.org/2000/svg" width=""#);
    reveal_strlit("420");
    reveal_strlit(r#"" height="420" role="img" aria-label=""#);
    reveal_strlit(r#"" height="150" role="img" aria-label=""#);
    reveal_strlit(r#"">
<title>"#);
    reveal_strlit(r#"</title>
<rect x=".5" y=".5" width="419" height="419" rx="6" fill=""#);
    reveal_strlit(r#"</title>
<rect x=".5" y=".5" width="419" height="149" rx="6" fill=""#);
    reveal_strlit("#ffffff");
    reveal_strlit("#0d1117");
    let at: int = r#"<svg xmlns="http://www.w3.org/2000/svg" width=""#@.len() + 3int + 10;
    assert(a[at] == tall(high)[10]);
    assert(b[at] == tall(other_high)[10]);
    lemma_starts_agree(s, a, b, at);
    let colour: int = a.len() - 6int;
    assert(a[colour] == palette_of(theme).canvas@[1]);
    assert(b[colour] == palette_of(other).canvas@[1]);
    lemma_starts_agree(s, a, b, colour);
}

spec fn is_pill(shape: Shape) -> bool {
    shape is Pill || shape is Peak
}

/// The image of a card or of a history opens with its height and its theme.
proof fn lemma_image_is_themed(name: Seq<char>, p: Portrait, shape: Shape, fonts: Fonts)
    requires
        !is_pill(shape),
    ensures
        ({
            let s = rendered(name, Some(p), shape, fonts).0;
            let aria = card_words(p.badge, palette_of(Theme::Light), fonts).aria;
            match shape {
                Shape::Card(theme) => {
                    &&& starts_with(s, themed(false, aria, theme))
                    &&& starts_with(s, opening("420"@, tall(false)))
                },
                Shape::History(theme) => {
                    &&& starts_with(s, themed(true, aria, theme))
                    &&& starts_with(s, opening("420"@, tall(true)))
                },
                _ => true,
            }
        }),
{
    let s = rendered(name, Some(p), shape, fonts).0;
    let aria = card_words(p.badge, palette_of(Theme::Light), fonts).aria;
    match shape {
        Shape::Card(theme) => {
            let words = card_words(p.badge, palette_of(theme), fonts);
            assert(words.aria == aria);
            lemma_themed_opens(words, theme);
            lemma_starts_chain(s, themed(false, aria, theme), opening("420"@, tall(false)));
        },
        Shape::History(theme) => {
            let words = history_words(p.badge, p.line(), palette_of(theme), fonts);
            assert(words.aria == aria);
            lemma_themed_opens(words, theme);
            lemma_starts_chain(s, themed(true, aria, theme), opening("420"@, tall(true)));
        },
        _ => {},
    }
}

proof fn lemma_pills_differ(
    name: Seq<char>,
    p: Portrait,
    one: Shape,
    other: Shape,
    fonts: Fonts,
)
    requires
        p.peak() is Some,
        one != other,
        is_pill(one),
        is_pill(other),
    ensures
        rendered(name, Some(p), one, fonts).0 != rendered(name, Some(p), other, fonts).0,
{
    let b = p.badge;
    let label = commas_text(b.stars as int);
    let face = fonts.verdana_11;
    let plain = pill_words(b);
    let peak = peak_words(b, p.peak());
    let k = lemma_peaks_speak_apart(b, p.peak()->0);
    match (one, other) {
        (Shape::Pill(x), Shape::Pill(y)) => {
            lemma_cuts_differ(x, y, label, plain.value, plain.bg, plain.aria, face);
        },
        (Shape::Peak(x), Shape::Peak(y)) => {
            lemma_cuts_differ(x, y, label, peak.value, peak.bg, peak.aria, face);
        },
        (Shape::Pill(x), Shape::Peak(y)) => {
            lemma_sentences_differ(
                x,
                y,
                label,
                plain.value,
                plain.bg,
                plain.aria,
                peak.value,
                peak.bg,
                peak.aria,
                face,
                k,
            );
        },
        (Shape::Peak(x), Shape::Pill(y)) => {
            lemma_sentences_differ(
                x,
                y,
                label,
                peak.value,
                peak.bg,
                peak.aria,
                plain.value,
                plain.bg,
                plain.aria,
                face,
                k,
            );
        },
        _ => {},
    }
}

proof fn lemma_pill_is_no_card(
    name: Seq<char>,
    p: Portrait,
    one: Shape,
    other: Shape,
    fonts: Fonts,
)
    requires
        is_pill(one),
        !is_pill(other),
    ensures
        rendered(name, Some(p), one, fonts).0 != rendered(name, Some(p), other, fonts).0,
{
    let s = rendered(name, Some(p), other, fonts).0;
    let label = commas_text(p.badge.stars as int);
    lemma_image_is_themed(name, p, other, fonts);
    let words = match one {
        Shape::Peak(_) => peak_words(p.badge, p.peak()),
        _ => pill_words(p.badge),
    };
    let cut = match one {
        Shape::Pill(cut) => cut,
        Shape::Peak(cut) => cut,
        _ => Cut::Flat,
    };
    lemma_pills_are_no_cards(
        other is History,
        s,
        cut,
        label,
        words.value,
        words.bg,
        words.aria,
        fonts.verdana_11,
    );
}

/// No two shapes of a tracked repo are one image, and the pill of its peak is the pill itself
/// exactly where no rate was ever measured.
pub proof fn law_every_shape_is_its_own_image(
    name: Seq<char>,
    p: Portrait,
    one: Shape,
    other: Shape,
    cut: Cut,
    fonts: Fonts,
)
    ensures
        p.peak() is Some && one != other ==> rendered(name, Some(p), one, fonts).0 != rendered(
            name,
            Some(p),
            other,
            fonts,
        ).0,
        p.peak() is None <==> rendered(name, Some(p), Shape::Peak(cut), fonts).0 == rendered(
            name,
            Some(p),
            Shape::Pill(cut),
            fonts,
        ).0,
{
    if p.peak() is Some {
        lemma_pills_differ(name, p, Shape::Peak(cut), Shape::Pill(cut), fonts);
        if one != other {
            if is_pill(one) && is_pill(other) {
                lemma_pills_differ(name, p, one, other, fonts);
            } else if is_pill(one) {
                lemma_pill_is_no_card(name, p, one, other, fonts);
            } else if is_pill(other) {
                lemma_pill_is_no_card(name, p, other, one, fonts);
            } else {
                let s = rendered(name, Some(p), one, fonts).0;
                let aria = card_words(p.badge, palette_of(Theme::Light), fonts).aria;
                if s == rendered(name, Some(p), other, fonts).0 {
                    lemma_image_is_themed(name, p, one, fonts);
                    lemma_image_is_themed(name, p, other, fonts);
                    let theme = match one {
                        Shape::Card(theme) => theme,
                        Shape::History(theme) => theme,
                        _ => Theme::Light,
                    };
                    let other_theme = match other {
                        Shape::Card(theme) => theme,
                        Shape::History(theme) => theme,
                        _ => Theme::Light,
                    };
                    lemma_themed_differ(
                        s,
                        one is History,
                        other is History,
                        aria,
                        theme,
                        other_theme,
                    );
                }
            }
        }
    }
}

} // verus!
