//! What the images and the pages say, and that they say it of what was read.

use vstd::prelude::*;

#[allow(unused_imports)]
use crate::badge::{
    arrow_text, card_of, card_svg, card_words, commas_text, coord_text, delta_text, escaped, gain_text, join,
    not_tracked_card_of, nums_svg, palette_of, percent_text, point_texts, proxy_text, rate_text,
    tenths_text, BadgeState, CardWords, Face, Fonts, Palette, Point, RepoBadge, Theme,
};
#[allow(unused_imports)]
use crate::board::{BoardRow, RowVelocity, RowView, Sort};
#[allow(unused_imports)]
use crate::cuts::{not_tracked_cut_of, peak_cut_of, pill_cut_of, Cut};
#[allow(unused_imports)]
use crate::history::{history_of, history_svg, history_words, not_tracked_history_of};
#[allow(unused_imports)]
use crate::markup::{holds, lemma_holds_before, lemma_holds_behind};
#[allow(unused_imports)]
use crate::round::{half_even, law_half_even_is_nearest, nearest};
#[allow(unused_imports)]
use crate::serve::OutcomeView;
#[allow(unused_imports)]
use crate::site::{
    color_of, compat_html, current, embed_html, examples_html, gain_class, head_html, html_char,
    html_escaped, index_body, rankings_body, reply_badge, reply_body, row_html, rows_html, shell_html,
    slug_of, stamp_of, stars_head, velocity_head, HOST, RANKINGS_EMPTY,
};
#[allow(unused_imports)]
use crate::text::{
    after, before, law_plain_prefixes_are_counted_in_characters, lemma_run, run, starts_with,
};

verus! {

/// A text stands in itself.
proof fn lemma_holds_itself(s: Seq<char>)
    ensures
        holds(s, s),
{
    assert(s.subrange(0, 0int + s.len()) =~= s);
}

/// The value that a repo's badge shows: the rate of a measured one, the average of a young one,
/// and words where there is no number yet.
pub open spec fn value_shown(b: RepoBadge) -> Seq<char> {
    match b.state {
        BadgeState::Measured { velocity, .. } => delta_text(velocity as int),
        BadgeState::Proxy { avg } => proxy_text(avg as int),
        BadgeState::Measuring => "measuring · first reading tomorrow"@,
        BadgeState::Enrolled => escaped(b.tracked_since@),
        BadgeState::Paused => "tracking paused"@,
    }
}

/// Every cut of a pill shows the count of its repo and its value, and that of a measured repo
/// says its gain.
#[verifier::spinoff_prover]
#[verifier::rlimit(60)]
pub proof fn law_a_pill_shows_its_count_and_value(b: RepoBadge, cut: Cut, fonts: Fonts)
    ensures
        holds(pill_cut_of(b, cut, fonts), commas_text(b.stars as int)),
        holds(pill_cut_of(b, cut, fonts), value_shown(b)),
        (b.state matches BadgeState::Measured { velocity, .. } ==> holds(
            pill_cut_of(b, cut, fonts),
            gain_text(velocity as int),
        )),
{
    broadcast use {lemma_holds_before, lemma_holds_behind};

    lemma_holds_itself(commas_text(b.stars as int));
    lemma_holds_itself(value_shown(b));
    if let BadgeState::Measured { velocity, .. } = b.state {
        lemma_holds_itself(gain_text(velocity as int));
    }
}

/// The pill of the highest day shows the count of its repo, the rate of that day and its date.
pub proof fn law_a_peak_shows_its_day(
    b: RepoBadge,
    rate: int,
    date: Seq<char>,
    cut: Cut,
    fonts: Fonts,
)
    ensures
        holds(peak_cut_of(b, Some((rate, date)), cut, fonts), commas_text(b.stars as int)),
        holds(peak_cut_of(b, Some((rate, date)), cut, fonts), "peak "@ + delta_text(rate)),
        holds(peak_cut_of(b, Some((rate, date)), cut, fonts), escaped(date)),
        peak_cut_of(b, None, cut, fonts) == pill_cut_of(b, cut, fonts),
{
    broadcast use {lemma_holds_before, lemma_holds_behind};

    lemma_holds_itself(commas_text(b.stars as int));
    lemma_holds_itself("peak "@ + delta_text(rate));
    lemma_holds_itself(escaped(date));
}

/// The card of a repo shows its name, its count and its value, and since when it is tracked; that
/// of a measured repo shows its percentile and draws its line, green where it gains.
#[verifier::spinoff_prover]
#[verifier::rlimit(60)]
pub proof fn law_a_card_shows_what_is_known(b: RepoBadge, theme: Theme, fonts: Fonts)
    ensures
        holds(card_of(b, theme, fonts), escaped(b.full_name@)),
        holds(card_of(b, theme, fonts), commas_text(b.stars as int)),
        holds(card_of(b, theme, fonts), value_shown(b)),
        holds(card_of(b, theme, fonts), escaped(b.tracked_since@)),
        (b.state matches BadgeState::Measured { velocity, top_percent } ==> {
            &&& holds(card_of(b, theme, fonts), gain_text(velocity as int))
            &&& holds(card_of(b, theme, fonts), "top "@ + percent_text(top_percent))
            &&& b.spark@.len() > 0 ==> holds(
                card_of(b, theme, fonts),
                join(point_texts(b.spark@, 160, 820), " "@),
            )
            &&& velocity >= 0 ==> holds(
                card_of(b, theme, fonts),
                if theme == Theme::Dark {
                    "#3fb950"@
                } else {
                    "#1a7f37"@
                },
            )
        }),
{
    let t = palette_of(theme);
    let words = card_words(b, t, fonts);
    lemma_words_hold(b, t, fonts);
    lemma_frame_holds(words, t, escaped(b.full_name@));
    lemma_frame_holds(words, t, commas_text(b.stars as int));
    lemma_frame_holds(words, t, value_shown(b));
    lemma_frame_holds(words, t, escaped(b.tracked_since@));
    if let BadgeState::Measured { velocity, top_percent } = b.state {
        lemma_frame_holds(words, t, gain_text(velocity as int));
        lemma_frame_holds(words, t, "top "@ + percent_text(top_percent));
        if b.spark@.len() > 0 {
            lemma_frame_holds(words, t, join(point_texts(b.spark@, 160, 820), " "@));
        }
        if velocity >= 0 {
            lemma_frame_holds(words, t, t.green@);
        }
    }
}

/// Whether a text stands in one of the parts of a card.
spec fn in_words(p: CardWords, part: Seq<char>) -> bool {
    ||| holds(p.aria, part)
    ||| holds(p.repo, part)
    ||| holds(p.nums, part)
    ||| holds(p.pct, part)
    ||| holds(p.spark, part)
    ||| holds(p.footer, part)
}

#[verifier::spinoff_prover]
#[verifier::rlimit(60)]
proof fn lemma_frame_holds(p: CardWords, t: Palette, part: Seq<char>)
    requires
        in_words(p, part),
    ensures
        holds(card_svg(p, t), part),
        holds(history_svg(p, t), part),
{
    broadcast use {lemma_holds_before, lemma_holds_behind};

}

/// What a card has to say stands in its parts.
#[verifier::spinoff_prover]
#[verifier::rlimit(60)]
proof fn lemma_words_hold(b: RepoBadge, t: Palette, fonts: Fonts)
    ensures
        ({
            let words = card_words(b, t, fonts);
            &&& holds(words.repo, escaped(b.full_name@))
            &&& holds(words.nums, commas_text(b.stars as int))
            &&& b.state is Enrolled || holds(words.nums, value_shown(b))
            &&& holds(words.footer, escaped(b.tracked_since@))
            &&& b.state matches BadgeState::Measured { velocity, top_percent } ==> {
                &&& holds(words.aria, gain_text(velocity as int))
                &&& holds(words.pct, "top "@ + percent_text(top_percent))
                &&& b.spark@.len() > 0 ==> holds(
                    words.spark,
                    join(point_texts(b.spark@, 160, 820), " "@),
                )
                &&& velocity >= 0 ==> holds(words.nums, t.green@)
            }
        }),
{
    broadcast use {lemma_holds_before, lemma_holds_behind};

    lemma_holds_itself(escaped(b.full_name@));
    lemma_holds_itself(commas_text(b.stars as int));
    lemma_holds_itself(value_shown(b));
    lemma_holds_itself(escaped(b.tracked_since@));
    if let BadgeState::Measured { velocity, top_percent } = b.state {
        lemma_holds_itself(gain_text(velocity as int));
        lemma_holds_itself("top "@ + percent_text(top_percent));
        lemma_holds_itself(join(point_texts(b.spark@, 160, 820), " "@));
        lemma_holds_itself(t.green@);
    }
}

/// On a card the value stands twelve pixels behind the count, however wide the count is, to the
/// tenth of a pixel.
pub proof fn law_the_value_stands_behind_the_count(
    count: Seq<char>,
    value: Seq<char>,
    fill: Seq<char>,
    weight: Seq<char>,
    t: Palette,
    face: Face,
)
    ensures
        exists|x: int|
            nearest(x, 2048, 10 * (38 * 2048 + face.width_of(count) + 12 * 2048)) && holds(
                nums_svg(count, value, fill, weight, t, face),
                #[trigger] tenths_text(x),
            ),
{
    broadcast use {lemma_holds_before, lemma_holds_behind};

    let amount = 10 * (50 * 2048 + face.width_of(count));
    let x = half_even(amount, 2048);
    law_half_even_is_nearest(amount, 2048);
    lemma_holds_itself(tenths_text(x));
}

/// The history of a repo shows its name, its count and its value, and since when it is tracked;
/// that of a measured repo shows its percentile and draws its whole line.
#[verifier::spinoff_prover]
#[verifier::rlimit(60)]
pub proof fn law_a_history_shows_what_is_known(
    b: RepoBadge,
    line: Seq<Point>,
    theme: Theme,
    fonts: Fonts,
)
    ensures
        holds(history_of(b, line, theme, fonts), escaped(b.full_name@)),
        holds(history_of(b, line, theme, fonts), commas_text(b.stars as int)),
        !(b.state is Enrolled) ==> holds(history_of(b, line, theme, fonts), value_shown(b)),
        holds(history_of(b, line, theme, fonts), "tracked since "@ + escaped(b.tracked_since@)),
        (b.state matches BadgeState::Measured { velocity, top_percent } ==> {
            &&& holds(history_of(b, line, theme, fonts), gain_text(velocity as int))
            &&& holds(history_of(b, line, theme, fonts), "top "@ + percent_text(top_percent))
            &&& line.len() > 0 ==> holds(
                history_of(b, line, theme, fonts),
                join(point_texts(line, 160, 900), " "@),
            )
        }),
{
    let t = palette_of(theme);
    let words = history_words(b, line, t, fonts);
    let since = "tracked since "@ + escaped(b.tracked_since@);
    lemma_words_hold(b, t, fonts);
    lemma_history_parts(b, line, t, fonts);
    lemma_frame_holds(words, t, escaped(b.full_name@));
    lemma_frame_holds(words, t, commas_text(b.stars as int));
    lemma_frame_holds(words, t, since);
    if !(b.state is Enrolled) {
        lemma_frame_holds(words, t, value_shown(b));
    }
    if let BadgeState::Measured { velocity, top_percent } = b.state {
        lemma_frame_holds(words, t, gain_text(velocity as int));
        lemma_frame_holds(words, t, "top "@ + percent_text(top_percent));
        if line.len() > 0 {
            lemma_frame_holds(words, t, join(point_texts(line, 160, 900), " "@));
        }
    }
}

#[verifier::spinoff_prover]
#[verifier::rlimit(60)]
proof fn lemma_history_parts(b: RepoBadge, line: Seq<Point>, t: Palette, fonts: Fonts)
    ensures
        holds(history_words(b, line, t, fonts).footer, "tracked since "@ + escaped(b.tracked_since@)),
        b.state is Measured && line.len() > 0 ==> holds(
            history_words(b, line, t, fonts).spark,
            join(point_texts(line, 160, 900), " "@),
        ),
{
    broadcast use {lemma_holds_before, lemma_holds_behind};

    let since = "tracked since "@ + escaped(b.tracked_since@);
    let whole = "all readings · tracked since "@ + escaped(b.tracked_since@);
    assert(holds(whole, since)) by {
        reveal_strlit("all readings · tracked since ");
        reveal_strlit("tracked since ");
        assert(whole.subrange(15, 15int + since.len()) =~= since);
    }
    lemma_holds_itself(join(point_texts(line, 160, 900), " "@));
}

/// Every image of a name that is not tracked says so.
#[verifier::spinoff_prover]
#[verifier::rlimit(60)]
pub proof fn law_unknown_names_read_not_tracked(
    name: Seq<char>,
    cut: Cut,
    theme: Theme,
    fonts: Fonts,
)
    ensures
        holds(not_tracked_cut_of(name, cut, fonts), "not tracked"@),
        holds(not_tracked_card_of(name, theme), "not tracked"@),
        holds(not_tracked_card_of(name, theme), escaped(name)),
        holds(not_tracked_history_of(name, theme), "not tracked"@),
        holds(not_tracked_history_of(name, theme), escaped(name)),
{
    broadcast use {lemma_holds_before, lemma_holds_behind};

    lemma_holds_itself("not tracked"@);
    lemma_holds_itself(escaped(name));
}

/// Points are drawn in their order, a separator between any two, each at its own place and moved
/// as all the others are.
pub proof fn law_points_are_drawn_in_order(
    a: Seq<Point>,
    b: Seq<Point>,
    p: Point,
    dx: int,
    dy: int,
    sep: Seq<char>,
)
    ensures
        a.len() > 0 && b.len() > 0 ==> join(point_texts(a + b, dx, dy), sep) == join(
            point_texts(a, dx, dy),
            sep,
        ) + sep + join(point_texts(b, dx, dy), sep),
        join(point_texts(seq![p], dx, dy), sep) == coord_text(p.x + dx) + seq![','] + coord_text(
            p.y + dy,
        ),
    decreases b.len(),
{
    reveal_strlit(",");
    assert(","@ =~= seq![',']);
    if a.len() > 0 && b.len() > 0 {
        let all = point_texts(a + b, dx, dy);
        let rest = b.drop_last();
        assert(all.drop_last() =~= point_texts(a + rest, dx, dy));
        assert(all.last() == point_texts(b, dx, dy).last());
        if rest.len() > 0 {
            law_points_are_drawn_in_order(a, rest, p, dx, dy, sep);
            assert(point_texts(b, dx, dy).drop_last() =~= point_texts(rest, dx, dy));
            assert(join(all, sep) =~= join(point_texts(a, dx, dy), sep) + sep + join(
                point_texts(b, dx, dy),
                sep,
            ));
        } else {
            assert(a + rest =~= a);
        }
    }
}

// ---------------------------------------------------------------- the pages

/// A row shows the name of its repo, its count and its language, and draws its line. A measured
/// row shows its rate, the way it goes and its percentile; a young one shows its average.
#[verifier::spinoff_prover]
#[verifier::rlimit(60)]
pub proof fn law_a_row_shows_what_is_known(row: RowView, colors: Seq<(Seq<char>, Seq<char>)>)
    ensures
        holds(row_html(row, colors), html_escaped(row.full_name)),
        holds(row_html(row, colors), commas_text(row.stars)),
        (row.language matches Some(name) ==> {
            &&& holds(row_html(row, colors), html_escaped(name))
            &&& holds(row_html(row, colors), html_escaped(color_of(colors, name)))
        }),
        row.spark.len() > 0 ==> holds(row_html(row, colors), join(point_texts(row.spark, 0, 0), " "@)),
        (match row.velocity {
            RowVelocity::Measured { per_day, top_percent } => {
                &&& holds(row_html(row, colors), rate_text(per_day as int))
                &&& holds(row_html(row, colors), "top "@ + percent_text(top_percent))
                &&& per_day >= 0 ==> holds(row_html(row, colors), "gain"@) && holds(
                    row_html(row, colors),
                    "▲"@,
                )
                &&& per_day < 0 ==> holds(row_html(row, colors), "drop"@) && holds(
                    row_html(row, colors),
                    "▼"@,
                )
            },
            RowVelocity::Proxy { avg } => holds(row_html(row, colors), proxy_text(avg as int)),
        }),
{
    broadcast use {lemma_holds_before, lemma_holds_behind};

    lemma_holds_itself(html_escaped(row.full_name));
    lemma_holds_itself(commas_text(row.stars));
    if let Some(name) = row.language {
        lemma_holds_itself(html_escaped(name));
        lemma_holds_itself(html_escaped(color_of(colors, name)));
    }
    lemma_holds_itself(join(point_texts(row.spark, 0, 0), " "@));
    match row.velocity {
        RowVelocity::Measured { per_day, top_percent } => {
            lemma_holds_itself(rate_text(per_day as int));
            lemma_holds_itself(gain_class(per_day as int));
            lemma_holds_itself(arrow_text(per_day as int));
            let top = "top "@ + percent_text(top_percent);
            let open = r#"<span class="c-pct num">top "#@;
            assert(holds(open + percent_text(top_percent), top)) by {
                reveal_strlit(r#"<span class="c-pct num">top "#);
                reveal_strlit("top ");
                assert((open + percent_text(top_percent)).subrange(24, 24int + top.len()) =~= top);
            }
        },
        RowVelocity::Proxy { avg } => {
            lemma_holds_itself(proxy_text(avg as int));
        },
    }
}

/// The rows of a board stand in its order, each in an item of its own, and the page of a board
/// holds them all. A board without rows says that it is empty.
#[verifier::spinoff_prover]
#[verifier::rlimit(60)]
pub proof fn law_a_board_shows_its_rows_in_order(
    a: Seq<RowView>,
    b: Seq<RowView>,
    row: RowView,
    sort: Sort,
    colors: Seq<(Seq<char>, Seq<char>)>,
)
    ensures
        rows_html(a + b, colors) == rows_html(a, colors) + rows_html(b, colors),
        rows_html(seq![row], colors) == r#"<li class="row">"#@ + row_html(row, colors) + "</li>"@,
        a.len() > 0 ==> holds(rankings_body(a, sort, colors), rows_html(a, colors)),
        holds(rankings_body(Seq::empty(), sort, colors), RANKINGS_EMPTY@),
{
    broadcast use {lemma_holds_before, lemma_holds_behind};

    lemma_rows_stand_in_order(a, b, colors);
    lemma_one_row(row, colors);
    lemma_holds_itself(rows_html(a, colors));
    lemma_holds_itself(RANKINGS_EMPTY@);
}

#[verifier::spinoff_prover]
#[verifier::rlimit(60)]
proof fn lemma_one_row(row: RowView, colors: Seq<(Seq<char>, Seq<char>)>)
    ensures
        rows_html(seq![row], colors) == r#"<li class="row">"#@ + row_html(row, colors) + "</li>"@,
{
    let none = Seq::<RowView>::empty();
    let open = r#"<li class="row">"#@;
    assert(seq![row].drop_last() =~= none);
    assert(seq![row].last() == row);
    assert(rows_html(none, colors) =~= Seq::<char>::empty());
    assert(Seq::<char>::empty() + open =~= open);
}

#[verifier::spinoff_prover]
#[verifier::rlimit(60)]
proof fn lemma_rows_stand_in_order(
    a: Seq<RowView>,
    b: Seq<RowView>,
    colors: Seq<(Seq<char>, Seq<char>)>,
)
    ensures
        rows_html(a + b, colors) == rows_html(a, colors) + rows_html(b, colors),
    decreases b.len(),
{
    if b.len() > 0 {
        let rest = b.drop_last();
        lemma_rows_stand_in_order(a, rest, colors);
        assert((a + b).drop_last() =~= a + rest);
        assert((a + b).last() == b.last());
        lemma_grouping(
            rows_html(a, colors),
            rows_html(rest, colors),
            r#"<li class="row">"#@,
            row_html(b.last(), colors),
            "</li>"@,
            rows_html(a + b, colors),
            rows_html(b, colors),
        );
    } else {
        assert(a + b =~= a);
        assert(rows_html(b, colors) =~= Seq::<char>::empty());
        assert(rows_html(a, colors) + Seq::<char>::empty() =~= rows_html(a, colors));
    }
}

/// How texts are put behind one another does not matter.
proof fn lemma_grouping(
    a: Seq<char>,
    b: Seq<char>,
    c: Seq<char>,
    d: Seq<char>,
    e: Seq<char>,
    whole: Seq<char>,
    end: Seq<char>,
)
    requires
        whole == (a + b) + c + d + e,
        end == b + c + d + e,
    ensures
        whole == a + end,
{
    assert(whole =~= a + end);
}

/// The dot of a language has the first colour that is known for it, and a neutral one where none
/// is.
pub proof fn law_a_language_has_its_first_colour(
    colors: Seq<(Seq<char>, Seq<char>)>,
    name: Seq<char>,
    k: int,
)
    ensures
        0 <= k < colors.len() && colors[k].0 == name && (forall|j: int|
            0 <= j < k ==> (#[trigger] colors[j]).0 != name) ==> color_of(colors, name)
            == colors[k].1,
        (forall|j: int| 0 <= j < colors.len() ==> (#[trigger] colors[j]).0 != name) ==> color_of(
            colors,
            name,
        ) == "var(--border)"@,
    decreases colors.len(),
{
    if colors.len() > 0 {
        let rest = colors.skip(1);
        law_a_language_has_its_first_colour(rest, name, k - 1);
        assert(forall|j: int| 0 <= j < rest.len() ==> #[trigger] rest[j] == colors[j + 1]);
        if 0 < k < colors.len() && colors[k].0 == name && (forall|j: int|
            0 <= j < k ==> (#[trigger] colors[j]).0 != name) {
            assert(colors[0].0 != name);
            assert(rest[k - 1] == colors[k]);
        }
        if forall|j: int| 0 <= j < colors.len() ==> (#[trigger] colors[j]).0 != name {
            assert(colors[0].0 != name);
        }
    }
}

/// Each column that a board is not sorted by leads to the board that is, and the other leads
/// nowhere.
pub proof fn law_the_other_order_is_one_link_away()
    ensures
        holds(head_html(Sort::Velocity), r#"<a href="/rankings?sort=stars""#@),
        holds(head_html(Sort::Stars), r#"<a href="/rankings""#@),
        stars_head(Sort::Stars) == "stars"@,
        velocity_head(Sort::Velocity) == "velocity"@,
{
    broadcast use {lemma_holds_before, lemma_holds_behind};

    let stars = r#"<a href="/rankings?sort=stars" aria-label="sort by stars">stars</a>"#@;
    let rates = r#"<a href="/rankings" aria-label="sort by velocity">velocity</a>"#@;
    assert(holds(stars, r#"<a href="/rankings?sort=stars""#@)) by {
        let part = r#"<a href="/rankings?sort=stars""#@;
        reveal_strlit(r#"<a href="/rankings?sort=stars" aria-label="sort by stars">stars</a>"#);
        reveal_strlit(r#"<a href="/rankings?sort=stars""#);
        assert(stars.subrange(0, 0int + part.len()) =~= part);
    }
    assert(holds(rates, r#"<a href="/rankings""#@)) by {
        let part = r#"<a href="/rankings""#@;
        reveal_strlit(r#"<a href="/rankings" aria-label="sort by velocity">velocity</a>"#);
        reveal_strlit(r#"<a href="/rankings""#);
        assert(rates.subrange(0, 0int + part.len()) =~= part);
    }
}

/// The site page is about the first row of its board, draws nothing where there is no row, and
/// shows how a badge of that repo is embedded and how a dead embed of it is mended.
#[verifier::spinoff_prover]
#[verifier::rlimit(60)]
pub proof fn law_the_site_is_about_the_first_row(rows: Seq<BoardRow>)
    ensures
        rows.len() > 0 ==> {
            let name = html_escaped(rows[0].full_name@);
            &&& holds(index_body(rows), "/badge/"@ + name + ")</code>"@)
            &&& holds(index_body(rows), "/svg?repos="@ + name + "&amp;type=Date"@)
            &&& holds(index_body(rows), examples_html(rows[0].full_name@))
        },
        rows.len() == 0 ==> holds(
            index_body(rows),
            "/badge/"@ + html_escaped("OWNER/REPO"@) + ")</code>"@,
        ),
{
    broadcast use {lemma_holds_before, lemma_holds_behind};

    let slug = slug_of(rows);
    let name = html_escaped(slug);
    lemma_holds_itself(examples_html(slug));
    let embed = "/badge/"@ + name + ")</code>"@;
    assert(holds(embed_html(slug), embed)) by {
        let open = "<pre><code>![stars]("@ + HOST@;
        reveal_strlit(")</code></pre>");
        reveal_strlit(")</code>");
        assert(embed_html(slug).subrange(open.len() as int, open.len() as int + embed.len()) =~= embed);
    }
    let mended = "/svg?repos="@ + name + "&amp;type=Date"@;
    assert(holds(compat_html(slug), mended)) by {
        let open = "<pre><code>"@ + HOST@;
        reveal_strlit("&amp;type=Date</code></pre>");
        reveal_strlit("&amp;type=Date");
        assert(compat_html(slug).subrange(open.len() as int, open.len() as int + mended.len()) =~= mended);
    }
}

/// A page holds its own part and its title, and marks itself in the navigation and no other page.
/// It says the moment of its numbers where that can be read, and no moment otherwise.
#[verifier::spinoff_prover]
#[verifier::rlimit(60)]
pub proof fn law_a_page_holds_its_part(
    title: Seq<char>,
    here: Seq<char>,
    path: Seq<char>,
    body: Seq<char>,
    through: Option<Seq<char>>,
    ts: Seq<char>,
    moment: Seq<char>,
)
    ensures
        holds(shell_html(title, here, body, through), body),
        holds(shell_html(title, here, body, through), html_escaped(title)),
        holds(current(here, path), "aria-current"@) <==> here == path,
        stamp_of(ts) == Some(moment) ==> holds(
            shell_html(title, here, body, Some(ts)),
            "snapshots through "@ + html_escaped(moment),
        ),
        stamp_of(ts) is None ==> shell_html(title, here, body, Some(ts)) == shell_html(
            title,
            here,
            body,
            None,
        ),
{
    broadcast use {lemma_holds_before, lemma_holds_behind};

    lemma_holds_itself(body);
    lemma_holds_itself(html_escaped(title));
    reveal_strlit("aria-current");
    reveal_strlit("");
    if here == path {
        let mark = r#" aria-current="page""#@;
        reveal_strlit(r#" aria-current="page""#);
        assert(mark.subrange(1, 1int + "aria-current"@.len()) =~= "aria-current"@);
    }
    if stamp_of(ts) == Some(moment) {
        let said = "snapshots through "@ + html_escaped(moment);
        assert(holds(" · snapshots through "@ + html_escaped(moment), said)) by {
            let whole = " · snapshots through "@ + html_escaped(moment);
            reveal_strlit(" · snapshots through ");
            reveal_strlit("snapshots through ");
            assert(whole.subrange(3, 3int + said.len()) =~= said);
        }
    }
}

/// The moment of a page is the date and the clock of its newest reading, to the minute.
pub proof fn law_a_moment_is_a_date_and_its_minute(date: Seq<char>, clock: Seq<char>)
    requires
        !date.contains('T'),
        clock.len() >= 5,
        forall|i: int| 0 <= i < clock.len() ==> (#[trigger] clock[i]) < '\u{80}',
    ensures
        stamp_of(date + seq!['T'] + clock) == Some(date + " "@ + clock.take(5) + " UTC"@),
        stamp_of(date) is None,
{
    let ts = date + seq!['T'] + clock;
    lemma_run(ts, 'T');
    law_plain_prefixes_are_counted_in_characters(clock, 5);
    let first = run(ts, 'T') as int;
    assert(ts[date.len() as int] == 'T');
    assert(ts.contains('T'));
    if first < date.len() {
        assert(date[first] == 'T');
    }
    assert(before(ts, 'T') =~= date);
    assert(after(ts, 'T') =~= clock);
}

/// A reply names the repo that it is about, and only a repo that is tracked is shown with its
/// badge.
#[verifier::spinoff_prover]
#[verifier::rlimit(60)]
pub proof fn law_a_reply_names_its_repo(name: Seq<char>, fresh: bool)
    ensures
        holds(
            reply_body(OutcomeView::Tracking { full_name: name, fresh: true }),
            html_escaped("Tracking "@ + name),
        ),
        holds(
            reply_body(OutcomeView::Tracking { full_name: name, fresh: false }),
            html_escaped(name + " is already tracked"@),
        ),
        holds(
            reply_body(OutcomeView::Queued { full_name: name }),
            html_escaped(name + " is queued"@),
        ),
        holds(
            reply_body(OutcomeView::Nothing { full_name: name }),
            html_escaped("Nothing to track for "@ + name),
        ),
        holds(
            reply_body(OutcomeView::Tracking { full_name: name, fresh }),
            "/badge/"@ + html_escaped(name) + ")</code>"@,
        ),
        reply_badge(OutcomeView::Queued { full_name: name }).len() == 0,
        reply_badge(OutcomeView::Nothing { full_name: name }).len() == 0,
        reply_badge(OutcomeView::Malformed).len() == 0,
{
    broadcast use {lemma_holds_before, lemma_holds_behind};

    lemma_holds_itself(html_escaped("Tracking "@ + name));
    lemma_holds_itself(html_escaped(name + " is already tracked"@));
    lemma_holds_itself(html_escaped(name + " is queued"@));
    lemma_holds_itself(html_escaped("Nothing to track for "@ + name));
    let embed = "/badge/"@ + html_escaped(name) + ")</code>"@;
    assert(holds(embed_html(name), embed)) by {
        let open = "<pre><code>![stars]("@ + HOST@;
        reveal_strlit(")</code></pre>");
        reveal_strlit(")</code>");
        assert(embed_html(name).subrange(open.len() as int, open.len() as int + embed.len()) =~= embed);
    }
}

/// What a reader of a page makes of a text: the four entities stand for their characters.
pub open spec fn html_read(s: Seq<char>) -> Seq<char>
    decreases s.len(),
{
    if s.len() == 0 {
        Seq::empty()
    } else if s.len() >= 5 && starts_with(s, "&amp;"@) {
        seq!['&'] + html_read(s.skip(5))
    } else if s.len() >= 4 && starts_with(s, "&lt;"@) {
        seq!['<'] + html_read(s.skip(4))
    } else if s.len() >= 4 && starts_with(s, "&gt;"@) {
        seq!['>'] + html_read(s.skip(4))
    } else if s.len() >= 6 && starts_with(s, "&quot;"@) {
        seq!['"'] + html_read(s.skip(6))
    } else {
        seq![s[0]] + html_read(s.skip(1))
    }
}

#[verifier::spinoff_prover]
#[verifier::rlimit(60)]
proof fn lemma_html_char_reads_back(c: char, rest: Seq<char>)
    ensures
        html_read(html_char(c) + rest) == seq![c] + html_read(rest),
{
    let mark = html_char(c);
    let whole = mark + rest;
    reveal_strlit("&amp;");
    reveal_strlit("&lt;");
    reveal_strlit("&gt;");
    reveal_strlit("&quot;");
    assert(whole.skip(mark.len() as int) =~= rest);
    assert(whole.take(mark.len() as int) =~= mark);
    assert(whole[0] == mark[0]);
    assert forall|other: Seq<char>| #[trigger] starts_with(whole, other) implies forall|i: int|
        0 <= i < other.len() ==> #[trigger] other[i] == whole[i] by {
        assert forall|i: int| 0 <= i < other.len() implies #[trigger] other[i] == whole[i] by {
            assert(whole.take(other.len() as int)[i] == whole[i]);
        }
    }
    if c == '&' || c == '<' || c == '>' || c == '"' {
        assert(whole[1] == mark[1] && whole[2] == mark[2]);
        assert(starts_with(whole, mark));
    }
}

proof fn lemma_html_escapes_piece_by_piece(a: Seq<char>, b: Seq<char>)
    ensures
        html_escaped(a + b) == html_escaped(a) + html_escaped(b),
    decreases b.len(),
{
    if b.len() == 0 {
        assert(a + b =~= a);
        assert(html_escaped(b) =~= Seq::<char>::empty());
        assert(html_escaped(a) + html_escaped(b) =~= html_escaped(a));
    } else {
        lemma_html_escapes_piece_by_piece(a, b.drop_last());
        assert((a + b).drop_last() =~= a + b.drop_last());
        assert((a + b).last() == b.last());
        assert(html_escaped(a + b) =~= html_escaped(a) + html_escaped(b));
    }
}

/// A text that stands in a page is read as the text.
pub proof fn law_a_page_is_read_as_it_was_meant(s: Seq<char>)
    ensures
        html_read(html_escaped(s)) == s,
    decreases s.len(),
{
    if s.len() > 0 {
        let c = s[0];
        let rest = s.skip(1);
        law_a_page_is_read_as_it_was_meant(rest);
        assert(s =~= seq![c] + rest);
        lemma_html_escapes_piece_by_piece(seq![c], rest);
        assert(seq![c].drop_last() =~= Seq::<char>::empty());
        assert(html_escaped(Seq::<char>::empty()) =~= Seq::<char>::empty());
        assert(html_escaped(seq![c]) =~= html_char(c));
        lemma_html_char_reads_back(c, html_escaped(rest));
    } else {
        assert(html_read(html_escaped(s)) =~= s);
    }
}

} // verus!
