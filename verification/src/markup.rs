//! What an image holds, read as markup.

use vstd::prelude::*;

#[allow(unused_imports)]
use crate::badge::{
    card_of, card_svg, card_words, commas_text, dashed_svg, escaped, footer_svg, grouped,
    law_escaped_text_holds_no_markup, nums_svg, palette_of, pct_svg, proxy_text, tenths_text, tenths_text_of,
    BadgeState, CardWords, Face, Fonts, Palette, Point, RepoBadge, Theme, MEASURING, STAR, UNITS_PER_PX,
};
#[allow(unused_imports)]
use crate::history::{foot_svg, history_of, history_words, history_svg, void_svg};
#[allow(unused_imports)]
use crate::round::half_even;
#[allow(unused_imports)]
use crate::text::{decimal, digit, padded, zeros};

verus! {

/// Whether a text stands somewhere in another.
pub open spec fn holds(s: Seq<char>, part: Seq<char>) -> bool {
    exists|i: int|
        0 <= i && i + part.len() <= s.len() && #[trigger] s.subrange(i, i + part.len()) == part
}

/// Whether no tag that draws a line opens at a place.
spec fn calm_at(s: Seq<char>, i: int) -> bool {
    i < s.len() && s[i] == '<' ==> {
        &&& i + 5 < s.len()
        &&& !(s[i + 1] == 'p' && s[i + 2] == 'o')
        &&& !(s[i + 1] == 'l' && s[i + 5] == 'a')
    }
}

/// Whether no tag that draws a line opens in a text. A tag that opens is told apart before the
/// text ends, so that the same holds of a text that goes on.
#[verifier::opaque]
spec fn calm(s: Seq<char>) -> bool {
    forall|i: int| 0 <= i < s.len() ==> #[trigger] calm_at(s, i)
}

/// Ten places at once.
spec fn calm_ten(s: Seq<char>, i: int) -> bool {
    &&& calm_at(s, i)
    &&& calm_at(s, i + 1)
    &&& calm_at(s, i + 2)
    &&& calm_at(s, i + 3)
    &&& calm_at(s, i + 4)
    &&& calm_at(s, i + 5)
    &&& calm_at(s, i + 6)
    &&& calm_at(s, i + 7)
    &&& calm_at(s, i + 8)
    &&& calm_at(s, i + 9)
}

spec fn calm_tens(s: Seq<char>, n: nat) -> bool
    decreases n,
{
    n == 0 || (calm_ten(s, 10 * (n - 1)) && calm_tens(s, (n - 1) as nat))
}

proof fn lemma_calm_tens(s: Seq<char>, n: nat)
    requires
        calm_tens(s, n),
    ensures
        forall|i: int| 0 <= i < 10 * n ==> #[trigger] calm_at(s, i),
    decreases n,
{
    if n > 0 {
        lemma_calm_tens(s, (n - 1) as nat);
        let at: int = 10 * (n - 1);
        assert(calm_ten(s, at));
        assert forall|i: int| 0 <= i < 10 * n implies #[trigger] calm_at(s, i) by {
            if i >= at {
                assert(i == at || i == at + 1 || i == at + 2 || i == at + 3 || i == at + 4 || i == at
                    + 5 || i == at + 6 || i == at + 7 || i == at + 8 || i == at + 9);
            }
        }
    }
}

proof fn lemma_calm(s: Seq<char>, n: nat)
    requires
        s.len() <= 10 * n,
        calm_tens(s, n),
    ensures
        calm(s),
{
    reveal(calm);
    lemma_calm_tens(s, n);
}

broadcast proof fn lemma_calm_concat(a: Seq<char>, b: Seq<char>)
    requires
        calm(a),
        calm(b),
    ensures
        #[trigger] calm(a + b),
{
    reveal(calm);
    assert forall|i: int| 0 <= i < (a + b).len() implies #[trigger] calm_at(a + b, i) by {
        if i < a.len() {
            assert(calm_at(a, i));
        } else {
            assert(calm_at(b, i - a.len()));
        }
    }
}

/// A text without tags opens none.
proof fn lemma_plain_is_calm(s: Seq<char>)
    requires
        forall|i: int| 0 <= i < s.len() ==> #[trigger] s[i] != '<',
    ensures
        calm(s),
{
    reveal(calm);
}

proof fn lemma_calm_draws_no_line(s: Seq<char>)
    requires
        calm(s),
    ensures
        !holds(s, "<polyline"@),
        !holds(s, "<linearGradient"@),
{
    reveal(calm);
    reveal_strlit("<polyline");
    reveal_strlit("<linearGradient");
    assert forall|i: int| 0 <= i && i + 9 <= s.len() implies #[trigger] s.subrange(i, i + 9)
        != "<polyline"@ by {
        let part = s.subrange(i, i + 9);
        assert(part[0] == s[i] && part[1] == s[i + 1] && part[2] == s[i + 2]);
        assert(calm_at(s, i));
    }
    assert forall|i: int| 0 <= i && i + 15 <= s.len() implies #[trigger] s.subrange(i, i + 15)
        != "<linearGradient"@ by {
        let part = s.subrange(i, i + 15);
        assert(part[0] == s[i] && part[1] == s[i + 1] && part[5] == s[i + 5]);
        assert(calm_at(s, i));
    }
}

proof fn lemma_decimal_is_calm(n: nat)
    ensures
        calm(decimal(n)),
    decreases n,
{
    broadcast use lemma_calm_concat;

    if n >= 10 {
        lemma_decimal_is_calm(n / 10);
        let last = seq![digit((n % 10) as int)];
        lemma_plain_is_calm(last);
        assert(decimal(n) =~= decimal(n / 10) + last);
    } else {
        lemma_plain_is_calm(decimal(n));
    }
}

proof fn lemma_count_is_calm(n: int)
    ensures
        calm(commas_text(n)),
{
    broadcast use lemma_calm_concat;

    lemma_plain_is_calm(seq!['-']);
    if n < 0 {
        lemma_grouped_is_calm((-n) as nat);
    } else {
        lemma_grouped_is_calm(n as nat);
    }
}

proof fn lemma_grouped_is_calm(n: nat)
    ensures
        calm(grouped(n)),
    decreases n,
{
    broadcast use lemma_calm_concat;

    if n < 1000 {
        lemma_decimal_is_calm(n);
    } else {
        let m = n % 1000;
        lemma_grouped_is_calm(n / 1000);
        lemma_plain_is_calm(seq![',']);
        lemma_plain_is_calm(zeros(3 - decimal(m).len()));
        lemma_decimal_is_calm(m);
        assert(calm(padded(m as int, 3)));
    }
}

proof fn lemma_tenths_are_calm(t: int)
    ensures
        calm(tenths_text(t)),
{
    broadcast use lemma_calm_concat;

    let n = (if t < 0 {
        -t
    } else {
        t
    }) as nat;
    lemma_decimal_is_calm(n / 10);
    lemma_decimal_is_calm(n % 10);
    assert(calm("."@)) by {
        reveal_strlit(".");
        reveal_with_fuel(calm_tens, 2);
        lemma_calm("."@, 1);
    }
    assert(calm("-"@)) by {
        reveal_strlit("-");
        reveal_with_fuel(calm_tens, 2);
        lemma_calm("-"@, 1);
    }
    assert(calm(tenths_text_of(n)));
}

proof fn lemma_escaped_is_calm(s: Seq<char>)
    ensures
        calm(escaped(s)),
{
    law_escaped_text_holds_no_markup(s);
    lemma_plain_is_calm(escaped(s));
}

proof fn lemma_colours_are_calm(theme: Theme)
    ensures
        calm(palette_of(theme).canvas@),
        calm(palette_of(theme).border@),
        calm(palette_of(theme).fg@),
        calm(palette_of(theme).muted@),
        calm(palette_of(theme).accent@),
        calm(palette_of(theme).gold@),
{
    assert(calm("#ffffff"@)) by {
        reveal_strlit("#ffffff");
        reveal_with_fuel(calm_tens, 2);
        lemma_calm("#ffffff"@, 1);
    }
    assert(calm("#d0d7de"@)) by {
        reveal_strlit("#d0d7de");
        reveal_with_fuel(calm_tens, 2);
        lemma_calm("#d0d7de"@, 1);
    }
    assert(calm("#1f2328"@)) by {
        reveal_strlit("#1f2328");
        reveal_with_fuel(calm_tens, 2);
        lemma_calm("#1f2328"@, 1);
    }
    assert(calm("#59636e"@)) by {
        reveal_strlit("#59636e");
        reveal_with_fuel(calm_tens, 2);
        lemma_calm("#59636e"@, 1);
    }
    assert(calm("#0969da"@)) by {
        reveal_strlit("#0969da");
        reveal_with_fuel(calm_tens, 2);
        lemma_calm("#0969da"@, 1);
    }
    assert(calm("#eac54f"@)) by {
        reveal_strlit("#eac54f");
        reveal_with_fuel(calm_tens, 2);
        lemma_calm("#eac54f"@, 1);
    }
    assert(calm("#0d1117"@)) by {
        reveal_strlit("#0d1117");
        reveal_with_fuel(calm_tens, 2);
        lemma_calm("#0d1117"@, 1);
    }
    assert(calm("#30363d"@)) by {
        reveal_strlit("#30363d");
        reveal_with_fuel(calm_tens, 2);
        lemma_calm("#30363d"@, 1);
    }
    assert(calm("#e6edf3"@)) by {
        reveal_strlit("#e6edf3");
        reveal_with_fuel(calm_tens, 2);
        lemma_calm("#e6edf3"@, 1);
    }
    assert(calm("#8b949e"@)) by {
        reveal_strlit("#8b949e");
        reveal_with_fuel(calm_tens, 2);
        lemma_calm("#8b949e"@, 1);
    }
    assert(calm("#58a6ff"@)) by {
        reveal_strlit("#58a6ff");
        reveal_with_fuel(calm_tens, 2);
        lemma_calm("#58a6ff"@, 1);
    }
    assert(calm("#e3b341"@)) by {
        reveal_strlit("#e3b341");
        reveal_with_fuel(calm_tens, 2);
        lemma_calm("#e3b341"@, 1);
    }
}

/// What stands around the words of a card opens no line.
#[verifier::spinoff_prover]
#[verifier::rlimit(60)]
proof fn lemma_frame_is_calm(p: CardWords, theme: Theme)
    requires
        calm(p.aria),
        calm(p.repo),
        calm(p.name_fill),
        calm(p.nums),
        calm(p.pct),
        calm(p.spark),
        calm(p.footer),
    ensures
        calm(card_svg(p, palette_of(theme))),
{
    broadcast use lemma_calm_concat;

    lemma_colours_are_calm(theme);
    assert(calm(r#"<svg xmlns="http://www.w3.org/2000/svg" width="420" height="150" role="img" aria-label=""#@)) by {
        reveal_strlit(r#"<svg xmlns="http://www.w3.org/2000/svg" width="420" height="150" role="img" aria-label=""#);
        reveal_with_fuel(calm_tens, 10);
        lemma_calm(r#"<svg xmlns="http://www.w3.org/2000/svg" width="420" height="150" role="img" aria-label=""#@, 9);
    }
    assert(calm(r#"">
<title>"#@)) by {
        reveal_strlit(r#"">
<title>"#);
        reveal_with_fuel(calm_tens, 3);
        lemma_calm(r#"">
<title>"#@, 2);
    }
    assert(calm(r#"</title>
<rect x=".5" y=".5" width="419" height="149" rx="6" fill=""#@)) by {
        reveal_strlit(r#"</title>
<rect x=".5" y=".5" width="419" height="149" rx="6" fill=""#);
        reveal_with_fuel(calm_tens, 8);
        lemma_calm(r#"</title>
<rect x=".5" y=".5" width="419" height="149" rx="6" fill=""#@, 7);
    }
    assert(calm(r#"" stroke=""#@)) by {
        reveal_strlit(r#"" stroke=""#);
        reveal_with_fuel(calm_tens, 3);
        lemma_calm(r#"" stroke=""#@, 2);
    }
    assert(calm(r#""/>
<g font-family="Helvetica,Arial,sans-serif">
<text x="16" y="27" font-size="13" font-weight="600" fill=""#@)) by {
        reveal_strlit(r#""/>
<g font-family="Helvetica,Arial,sans-serif">
<text x="16" y="27" font-size="13" font-weight="600" fill=""#);
        reveal_with_fuel(calm_tens, 12);
        lemma_calm(r#""/>
<g font-family="Helvetica,Arial,sans-serif">
<text x="16" y="27" font-size="13" font-weight="600" fill=""#@, 11);
    }
    assert(calm(r#"">"#@)) by {
        reveal_strlit(r#"">"#);
        reveal_with_fuel(calm_tens, 2);
        lemma_calm(r#"">"#@, 1);
    }
    assert(calm("</text>
"@)) by {
        reveal_strlit("</text>
");
        reveal_with_fuel(calm_tens, 2);
        lemma_calm("</text>
"@, 1);
    }
    assert(calm("
"@)) by {
        reveal_strlit("
");
        reveal_with_fuel(calm_tens, 2);
        lemma_calm("
"@, 1);
    }
    assert(calm(r#"
<text x="404" y="140" font-size="10.5" text-anchor="end" fill=""#@)) by {
        reveal_strlit(r#"
<text x="404" y="140" font-size="10.5" text-anchor="end" fill=""#);
        reveal_with_fuel(calm_tens, 8);
        lemma_calm(r#"
<text x="404" y="140" font-size="10.5" text-anchor="end" fill=""#@, 7);
    }
    assert(calm(r#"">afterglow</text>
</g>
</svg>"#@)) by {
        reveal_strlit(r#"">afterglow</text>
</g>
</svg>"#);
        reveal_with_fuel(calm_tens, 5);
        lemma_calm(r#"">afterglow</text>
</g>
</svg>"#@, 4);
    }
}

/// What stands around the words of a history opens no line.
#[verifier::spinoff_prover]
#[verifier::rlimit(60)]
proof fn lemma_history_is_calm(p: CardWords, theme: Theme)
    requires
        calm(p.aria),
        calm(p.repo),
        calm(p.name_fill),
        calm(p.nums),
        calm(p.pct),
        calm(p.spark),
        calm(p.footer),
    ensures
        calm(history_svg(p, palette_of(theme))),
{
    broadcast use lemma_calm_concat;

    lemma_colours_are_calm(theme);
    assert(calm(r#"<svg xmlns="http://www.w3.org/2000/svg" width="420" height="420" role="img" aria-label=""#@)) by {
        reveal_strlit(r#"<svg xmlns="http://www.w3.org/2000/svg" width="420" height="420" role="img" aria-label=""#);
        reveal_with_fuel(calm_tens, 10);
        lemma_calm(r#"<svg xmlns="http://www.w3.org/2000/svg" width="420" height="420" role="img" aria-label=""#@, 9);
    }
    assert(calm(r#"">
<title>"#@)) by {
        reveal_strlit(r#"">
<title>"#);
        reveal_with_fuel(calm_tens, 3);
        lemma_calm(r#"">
<title>"#@, 2);
    }
    assert(calm(r#"</title>
<rect x=".5" y=".5" width="419" height="419" rx="6" fill=""#@)) by {
        reveal_strlit(r#"</title>
<rect x=".5" y=".5" width="419" height="419" rx="6" fill=""#);
        reveal_with_fuel(calm_tens, 8);
        lemma_calm(r#"</title>
<rect x=".5" y=".5" width="419" height="419" rx="6" fill=""#@, 7);
    }
    assert(calm(r#"" stroke=""#@)) by {
        reveal_strlit(r#"" stroke=""#);
        reveal_with_fuel(calm_tens, 3);
        lemma_calm(r#"" stroke=""#@, 2);
    }
    assert(calm(r#""/>
<g font-family="Helvetica,Arial,sans-serif">
<text x="16" y="27" font-size="13" font-weight="600" fill=""#@)) by {
        reveal_strlit(r#""/>
<g font-family="Helvetica,Arial,sans-serif">
<text x="16" y="27" font-size="13" font-weight="600" fill=""#);
        reveal_with_fuel(calm_tens, 12);
        lemma_calm(r#""/>
<g font-family="Helvetica,Arial,sans-serif">
<text x="16" y="27" font-size="13" font-weight="600" fill=""#@, 11);
    }
    assert(calm(r#"">"#@)) by {
        reveal_strlit(r#"">"#);
        reveal_with_fuel(calm_tens, 2);
        lemma_calm(r#"">"#@, 1);
    }
    assert(calm("</text>
"@)) by {
        reveal_strlit("</text>
");
        reveal_with_fuel(calm_tens, 2);
        lemma_calm("</text>
"@, 1);
    }
    assert(calm("
"@)) by {
        reveal_strlit("
");
        reveal_with_fuel(calm_tens, 2);
        lemma_calm("
"@, 1);
    }
    assert(calm(r#"
<text x="404" y="410" font-size="10.5" text-anchor="end" fill=""#@)) by {
        reveal_strlit(r#"
<text x="404" y="410" font-size="10.5" text-anchor="end" fill=""#);
        reveal_with_fuel(calm_tens, 8);
        lemma_calm(r#"
<text x="404" y="410" font-size="10.5" text-anchor="end" fill=""#@, 7);
    }
    assert(calm(r#"">afterglow</text>
</g>
</svg>"#@)) by {
        reveal_strlit(r#"">afterglow</text>
</g>
</svg>"#);
        reveal_with_fuel(calm_tens, 5);
        lemma_calm(r#"">afterglow</text>
</g>
</svg>"#@, 4);
    }
}

#[verifier::spinoff_prover]
#[verifier::rlimit(60)]
proof fn lemma_nums_are_calm(
    count: int,
    value: Seq<char>,
    value_fill: Seq<char>,
    weight: Seq<char>,
    theme: Theme,
    face: Face,
)
    requires
        calm(value),
        calm(value_fill),
        calm(weight),
    ensures
        calm(nums_svg(commas_text(count), value, value_fill, weight, palette_of(theme), face)),
{
    broadcast use lemma_calm_concat;

    lemma_colours_are_calm(theme);
    lemma_count_is_calm(count);
    let width = face.width_of(commas_text(count));
    lemma_tenths_are_calm(half_even(10 * (50 * UNITS_PER_PX + width), UNITS_PER_PX as int));
    assert(calm(STAR@)) by {
        reveal_strlit("M8 .25a.75.75 0 0 1 .673.418l1.882 3.815 4.21.612a.75.75 0 0 1 .416 1.279l-3.046 2.97.719 4.192a.751.751 0 0 1-1.088.791L8 12.347l-3.766 1.98a.75.75 0 0 1-1.088-.79l.72-4.194L.818 6.374a.75.75 0 0 1 .416-1.28l4.21-.611L7.327.668A.75.75 0 0 1 8 .25Z");
        reveal_with_fuel(calm_tens, 26);
        lemma_calm(STAR@, 25);
    }
    assert(calm(r#"<path transform="translate(16,41)" fill=""#@)) by {
        reveal_strlit(r#"<path transform="translate(16,41)" fill=""#);
        reveal_with_fuel(calm_tens, 6);
        lemma_calm(r#"<path transform="translate(16,41)" fill=""#@, 5);
    }
    assert(calm(r#"" d=""#@)) by {
        reveal_strlit(r#"" d=""#);
        reveal_with_fuel(calm_tens, 2);
        lemma_calm(r#"" d=""#@, 1);
    }
    assert(calm(r#""/>
<text x="38" y="56" font-size="20" font-weight="600" fill=""#@)) by {
        reveal_strlit(r#""/>
<text x="38" y="56" font-size="20" font-weight="600" fill=""#);
        reveal_with_fuel(calm_tens, 8);
        lemma_calm(r#""/>
<text x="38" y="56" font-size="20" font-weight="600" fill=""#@, 7);
    }
    assert(calm(r#"">"#@)) by {
        reveal_strlit(r#"">"#);
        reveal_with_fuel(calm_tens, 2);
        lemma_calm(r#"">"#@, 1);
    }
    assert(calm(r#"</text>
<text x=""#@)) by {
        reveal_strlit(r#"</text>
<text x=""#);
        reveal_with_fuel(calm_tens, 3);
        lemma_calm(r#"</text>
<text x=""#@, 2);
    }
    assert(calm(r#"" y="56" font-size="13" font-weight=""#@)) by {
        reveal_strlit(r#"" y="56" font-size="13" font-weight=""#);
        reveal_with_fuel(calm_tens, 5);
        lemma_calm(r#"" y="56" font-size="13" font-weight=""#@, 4);
    }
    assert(calm(r#"" fill=""#@)) by {
        reveal_strlit(r#"" fill=""#);
        reveal_with_fuel(calm_tens, 2);
        lemma_calm(r#"" fill=""#@, 1);
    }
    assert(calm("</text>"@)) by {
        reveal_strlit("</text>");
        reveal_with_fuel(calm_tens, 2);
        lemma_calm("</text>"@, 1);
    }
}

#[verifier::spinoff_prover]
#[verifier::rlimit(60)]
proof fn lemma_lines_of_text_are_calm(text: Seq<char>, weight: Seq<char>, theme: Theme)
    requires
        calm(text),
        calm(weight),
    ensures
        calm(pct_svg(text, palette_of(theme))),
        calm(footer_svg(text, weight, palette_of(theme))),
        calm(foot_svg(text, palette_of(theme))),
{
    broadcast use lemma_calm_concat;

    lemma_colours_are_calm(theme);
    assert(calm(r#"<text x="16" y="74" font-size="11" fill=""#@)) by {
        reveal_strlit(r#"<text x="16" y="74" font-size="11" fill=""#);
        reveal_with_fuel(calm_tens, 6);
        lemma_calm(r#"<text x="16" y="74" font-size="11" fill=""#@, 5);
    }
    assert(calm(r#"">"#@)) by {
        reveal_strlit(r#"">"#);
        reveal_with_fuel(calm_tens, 2);
        lemma_calm(r#"">"#@, 1);
    }
    assert(calm("</text>"@)) by {
        reveal_strlit("</text>");
        reveal_with_fuel(calm_tens, 2);
        lemma_calm("</text>"@, 1);
    }
    assert(calm(r#"<text x="16" y="140" font-size="10.5" font-weight=""#@)) by {
        reveal_strlit(r#"<text x="16" y="140" font-size="10.5" font-weight=""#);
        reveal_with_fuel(calm_tens, 7);
        lemma_calm(r#"<text x="16" y="140" font-size="10.5" font-weight=""#@, 6);
    }
    assert(calm(r#"" fill=""#@)) by {
        reveal_strlit(r#"" fill=""#);
        reveal_with_fuel(calm_tens, 2);
        lemma_calm(r#"" fill=""#@, 1);
    }
    assert(calm(r#"<text x="16" y="410" font-size="10.5" font-weight="400" fill=""#@)) by {
        reveal_strlit(r#"<text x="16" y="410" font-size="10.5" font-weight="400" fill=""#);
        reveal_with_fuel(calm_tens, 8);
        lemma_calm(r#"<text x="16" y="410" font-size="10.5" font-weight="400" fill=""#@, 7);
    }
}

/// The void of a card and that of a history show a dashed stroke and no line.
proof fn lemma_voids_are_calm(theme: Theme)
    ensures
        calm(dashed_svg(palette_of(theme))),
        calm(void_svg(palette_of(theme))),
{
    broadcast use lemma_calm_concat;

    lemma_colours_are_calm(theme);
    assert(calm(r#"<line x1="16" y1="112" x2="404" y2="112" stroke=""#@)) by {
        reveal_strlit(r#"<line x1="16" y1="112" x2="404" y2="112" stroke=""#);
        reveal_with_fuel(calm_tens, 6);
        lemma_calm(r#"<line x1="16" y1="112" x2="404" y2="112" stroke=""#@, 5);
    }
    assert(calm(r#"" stroke-width="1" stroke-dasharray="3,5" opacity=".6"/>"#@)) by {
        reveal_strlit(r#"" stroke-width="1" stroke-dasharray="3,5" opacity=".6"/>"#);
        reveal_with_fuel(calm_tens, 7);
        lemma_calm(r#"" stroke-width="1" stroke-dasharray="3,5" opacity=".6"/>"#@, 6);
    }
    assert(calm(r#"<line x1="16" y1="240" x2="404" y2="240" stroke=""#@)) by {
        reveal_strlit(r#"<line x1="16" y1="240" x2="404" y2="240" stroke=""#);
        reveal_with_fuel(calm_tens, 6);
        lemma_calm(r#"<line x1="16" y1="240" x2="404" y2="240" stroke=""#@, 5);
    }
}

/// What the card of a repo that is not measured says opens no line.
#[verifier::spinoff_prover]
#[verifier::rlimit(60)]
proof fn lemma_words_are_calm(b: RepoBadge, theme: Theme, fonts: Fonts)
    requires
        !(b.state is Measured),
    ensures
        ({
            let p = card_words(b, palette_of(theme), fonts);
            &&& calm(p.aria)
            &&& calm(p.repo)
            &&& calm(p.name_fill)
            &&& calm(p.nums)
            &&& calm(p.pct)
            &&& calm(p.spark)
            &&& calm(p.footer)
        }),
{
    broadcast use lemma_calm_concat;

    let t = palette_of(theme);
    let face = fonts.helvetica_bold_20;
    let since = escaped(b.tracked_since@);
    let stars = b.stars as int;
    lemma_colours_are_calm(theme);
    lemma_voids_are_calm(theme);
    lemma_escaped_is_calm(b.full_name@);
    lemma_escaped_is_calm(b.tracked_since@);
    lemma_count_is_calm(stars);
    lemma_plain_is_calm(Seq::<char>::empty());
    assert(calm("afterglow: "@)) by {
        reveal_strlit("afterglow: ");
        reveal_with_fuel(calm_tens, 3);
        lemma_calm("afterglow: "@, 2);
    }
    assert(calm(" — "@)) by {
        reveal_strlit(" — ");
        reveal_with_fuel(calm_tens, 2);
        lemma_calm(" — "@, 1);
    }
    assert(calm(" stars, about "@)) by {
        reveal_strlit(" stars, about ");
        reveal_with_fuel(calm_tens, 3);
        lemma_calm(" stars, about "@, 2);
    }
    assert(calm(" per day lifetime average (proxy)"@)) by {
        reveal_strlit(" per day lifetime average (proxy)");
        reveal_with_fuel(calm_tens, 5);
        lemma_calm(" per day lifetime average (proxy)"@, 4);
    }
    assert(calm("600"@)) by {
        reveal_strlit("600");
        reveal_with_fuel(calm_tens, 2);
        lemma_calm("600"@, 1);
    }
    assert(calm("tracked since "@)) by {
        reveal_strlit("tracked since ");
        reveal_with_fuel(calm_tens, 3);
        lemma_calm("tracked since "@, 2);
    }
    assert(calm("400"@)) by {
        reveal_strlit("400");
        reveal_with_fuel(calm_tens, 2);
        lemma_calm("400"@, 1);
    }
    assert(calm(" stars, measuring, first reading tomorrow"@)) by {
        reveal_strlit(" stars, measuring, first reading tomorrow");
        reveal_with_fuel(calm_tens, 6);
        lemma_calm(" stars, measuring, first reading tomorrow"@, 5);
    }
    assert(calm(" — tracking started "@)) by {
        reveal_strlit(" — tracking started ");
        reveal_with_fuel(calm_tens, 4);
        lemma_calm(" — tracking started "@, 3);
    }
    assert(calm(", history begins now"@)) by {
        reveal_strlit(", history begins now");
        reveal_with_fuel(calm_tens, 4);
        lemma_calm(", history begins now"@, 3);
    }
    assert(calm("tracking started "@)) by {
        reveal_strlit("tracking started ");
        reveal_with_fuel(calm_tens, 3);
        lemma_calm("tracking started "@, 2);
    }
    assert(calm(" — history begins now"@)) by {
        reveal_strlit(" — history begins now");
        reveal_with_fuel(calm_tens, 4);
        lemma_calm(" — history begins now"@, 3);
    }
    assert(calm(" stars, tracking paused"@)) by {
        reveal_strlit(" stars, tracking paused");
        reveal_with_fuel(calm_tens, 4);
        lemma_calm(" stars, tracking paused"@, 3);
    }
    assert(calm("tracking paused"@)) by {
        reveal_strlit("tracking paused");
        reveal_with_fuel(calm_tens, 3);
        lemma_calm("tracking paused"@, 2);
    }
    assert(calm("measuring · first reading tomorrow"@)) by {
        reveal_strlit("measuring · first reading tomorrow");
        reveal_with_fuel(calm_tens, 5);
        lemma_calm("measuring · first reading tomorrow"@, 4);
    }
    assert(calm("~"@)) by {
        reveal_strlit("~");
        reveal_with_fuel(calm_tens, 2);
        lemma_calm("~"@, 1);
    }
    assert(calm(" avg"@)) by {
        reveal_strlit(" avg");
        reveal_with_fuel(calm_tens, 2);
        lemma_calm(" avg"@, 1);
    }
    lemma_nums_are_calm(stars, MEASURING@, t.muted@, "400"@, theme, face);
    lemma_nums_are_calm(stars, "tracking paused"@, t.muted@, "400"@, theme, face);
    lemma_lines_of_text_are_calm(MEASURING@, "400"@, theme);
    lemma_lines_of_text_are_calm("tracked since "@ + since, "400"@, theme);
    lemma_lines_of_text_are_calm(
        "tracking started "@ + since + " — history begins now"@,
        "600"@,
        theme,
    );
    if let BadgeState::Proxy { avg } = b.state {
        lemma_count_is_calm(avg as int);
        assert(calm(proxy_text(avg as int)));
        lemma_nums_are_calm(stars, proxy_text(avg as int), t.muted@, "600"@, theme, face);
    }
}

pub broadcast proof fn lemma_holds_before(a: Seq<char>, b: Seq<char>, part: Seq<char>)
    requires
        holds(a, part),
    ensures
        #[trigger] holds(a + b, part),
{
    let i = choose|i: int|
        0 <= i && i + part.len() <= a.len() && #[trigger] a.subrange(i, i + part.len()) == part;
    assert((a + b).subrange(i, i + part.len()) =~= part);
}

pub broadcast proof fn lemma_holds_behind(a: Seq<char>, b: Seq<char>, part: Seq<char>)
    requires
        holds(b, part),
    ensures
        #[trigger] holds(a + b, part),
{
    let i = choose|i: int|
        0 <= i && i + part.len() <= b.len() && #[trigger] b.subrange(i, i + part.len()) == part;
    let j = a.len() + i;
    assert((a + b).subrange(j, j + part.len()) =~= part);
}

/// Both voids are dashed.
proof fn lemma_voids_are_dashed(t: Palette)
    ensures
        holds(dashed_svg(t), "stroke-dasharray"@),
        holds(void_svg(t), "stroke-dasharray"@),
{
    broadcast use {lemma_holds_before, lemma_holds_behind};

    let end = r#"" stroke-width="1" stroke-dasharray="3,5" opacity=".6"/>"#@;
    assert(holds(end, "stroke-dasharray"@)) by {
        reveal_strlit(r#"" stroke-width="1" stroke-dasharray="3,5" opacity=".6"/>"#);
        reveal_strlit("stroke-dasharray");
        let part = "stroke-dasharray"@;
        assert(end.subrange(19, 19int + part.len()) =~= part);
    }
}

proof fn lemma_frames_hold_their_line(p: CardWords, t: Palette, part: Seq<char>)
    requires
        holds(p.spark, part),
    ensures
        holds(card_svg(p, t), part),
        holds(history_svg(p, t), part),
{
    broadcast use {lemma_holds_before, lemma_holds_behind};

}

/// The card and the history of a repo that is not measured hold no line and no gradient, but a
/// dashed stroke in their place.
pub proof fn law_unmeasured_images_draw_no_line(
    b: RepoBadge,
    line: Seq<Point>,
    theme: Theme,
    fonts: Fonts,
)
    requires
        !(b.state is Measured),
    ensures
        holds(card_of(b, theme, fonts), "stroke-dasharray"@),
        !holds(card_of(b, theme, fonts), "<polyline"@),
        !holds(card_of(b, theme, fonts), "<linearGradient"@),
        holds(history_of(b, line, theme, fonts), "stroke-dasharray"@),
        !holds(history_of(b, line, theme, fonts), "<polyline"@),
        !holds(history_of(b, line, theme, fonts), "<linearGradient"@),
{
    let t = palette_of(theme);
    lemma_words_are_calm(b, theme, fonts);
    lemma_frame_is_calm(card_words(b, t, fonts), theme);
    lemma_calm_draws_no_line(card_of(b, theme, fonts));
    lemma_voids_are_calm(theme);
    let since = "all readings · tracked since "@ + escaped(b.tracked_since@);
    assert(calm(since) && calm("400"@)) by {
        broadcast use lemma_calm_concat;

        lemma_escaped_is_calm(b.tracked_since@);
        assert(calm("all readings · tracked since "@)) by {
            reveal_strlit("all readings · tracked since ");
            reveal_with_fuel(calm_tens, 4);
            lemma_calm("all readings · tracked since "@, 3);
        }
        assert(calm("400"@)) by {
            reveal_strlit("400");
            reveal_with_fuel(calm_tens, 2);
            lemma_calm("400"@, 1);
        }
    }
    lemma_lines_of_text_are_calm(since, "400"@, theme);
    lemma_history_is_calm(history_words(b, line, t, fonts), theme);
    lemma_calm_draws_no_line(history_of(b, line, theme, fonts));
    lemma_voids_are_dashed(t);
    lemma_frames_hold_their_line(card_words(b, t, fonts), t, "stroke-dasharray"@);
    lemma_frames_hold_their_line(history_words(b, line, t, fonts), t, "stroke-dasharray"@);
}

} // verus!
