//! Badge SVGs, self-contained the way an image proxy serves them: no webfonts, no outside
//! references.
//!
//! Geometry is pinned with `textLength` at ten times the scale, so a client that
//! substitutes another font lays the badge out identically. Lengths are exact: a text is
//! measured in font units, and every number that is printed is rounded once, to even.

use vstd::prelude::*;

#[allow(unused_imports)]
use crate::round::{half_even, law_half_even_is_nearest, nearest, nearest_even};
#[allow(unused_imports)]
use crate::text::{
    decimal, digit, integer, integer_text, lemma_decimal_digits, padded, push_decimal, push_padded, starts_with,
    to_chars, without, zeros,
};

verus! {

/// Octicon `star-fill`, unmodified.
pub const STAR: &'static str = "M8 .25a.75.75 0 0 1 .673.418l1.882 3.815 4.21.612a.75.75 0 0 1 .416 1.279l-3.046 2.97.719 4.192a.751.751 0 0 1-1.088.791L8 12.347l-3.766 1.98a.75.75 0 0 1-1.088-.79l.72-4.194L.818 6.374a.75.75 0 0 1 .416-1.28l4.21-.611L7.327.668A.75.75 0 0 1 8 .25Z";

pub const AMBER: &'static str = "#d4a72c";

pub const PROXY_GREY: &'static str = "#9f9f9f";

pub const MEASURING: &'static str = "measuring · first reading tomorrow";

pub const NOT_TRACKED: &'static str = "not tracked";

// ---------------------------------------------------------------- what a badge shows

#[derive(Debug, Clone, Copy, PartialEq, Eq, Structural)]
pub enum Theme {
    Light,
    Dark,
}

/// A part of a whole, as two counts.
#[derive(Debug, Clone, Copy, PartialEq, Eq, Structural)]
pub struct Share {
    pub ahead: u64,
    pub pool: u64,
}

/// A point of a sparkline in tenths of a pixel.
#[derive(Debug, Clone, Copy, PartialEq, Eq, Structural)]
pub struct Point {
    pub x: i64,
    pub y: i64,
}

#[derive(Debug, Clone, Copy, PartialEq, Eq, Structural)]
pub enum BadgeState {
    Measured { velocity: i64, top_percent: Share },
    /// Young repo, lifetime average until a measured delta exists.
    Proxy { avg: i64 },
    Measuring,
    /// Enrollment day: history begins now.
    Enrolled,
    Paused,
}

impl BadgeState {
    /// A percentile is taken out of a pool that is not empty.
    pub open spec fn wf(self) -> bool {
        self matches BadgeState::Measured { top_percent, .. } ==> top_percent.pool > 0
    }
}

#[derive(Debug, Clone, PartialEq)]
pub struct RepoBadge {
    pub full_name: String,
    pub stars: i64,
    pub tracked_since: String,
    pub state: BadgeState,
    /// Sparkline points in local coords of the 388x40 region; drawn only when measured.
    pub spark: Vec<Point>,
}

#[derive(Clone, Copy)]
pub struct Palette {
    pub canvas: &'static str,
    pub border: &'static str,
    pub fg: &'static str,
    pub muted: &'static str,
    pub accent: &'static str,
    pub green: &'static str,
    pub gold: &'static str,
    pub spark: &'static str,
}

/// The colours of a theme.
pub open spec fn palette_of(theme: Theme) -> Palette {
    match theme {
        Theme::Light => Palette {
            canvas: "#ffffff",
            border: "#d0d7de",
            fg: "#1f2328",
            muted: "#59636e",
            accent: "#0969da",
            green: "#1a7f37",
            gold: "#eac54f",
            spark: "#d4a72c",
        },
        Theme::Dark => Palette {
            canvas: "#0d1117",
            border: "#30363d",
            fg: "#e6edf3",
            muted: "#8b949e",
            accent: "#58a6ff",
            green: "#3fb950",
            gold: "#e3b341",
            spark: "#e3b341",
        },
    }
}

impl Theme {
    pub fn palette(self) -> (r: Palette)
        ensures
            r == palette_of(self),
    {
        match self {
            Theme::Light => Palette {
                canvas: "#ffffff",
                border: "#d0d7de",
                fg: "#1f2328",
                muted: "#59636e",
                accent: "#0969da",
                green: "#1a7f37",
                gold: "#eac54f",
                spark: "#d4a72c",
            },
            Theme::Dark => Palette {
                canvas: "#0d1117",
                border: "#30363d",
                fg: "#e6edf3",
                muted: "#8b949e",
                accent: "#58a6ff",
                green: "#3fb950",
                gold: "#e3b341",
                spark: "#e3b341",
            },
        }
    }
}

// ---------------------------------------------------------------- numbers as badges print them

/// A natural number with a comma before every third digit from the right.
pub open spec fn grouped(n: nat) -> Seq<char>
    decreases n,
{
    if n < 1000 {
        decimal(n)
    } else {
        grouped(n / 1000) + seq![','] + padded((n % 1000) as int, 3)
    }
}

/// An integer with a comma before every third digit from the right.
pub open spec fn commas_text(n: int) -> Seq<char> {
    if n < 0 {
        seq!['-'] + grouped((-n) as nat)
    } else {
        grouped(n as nat)
    }
}

fn push_grouped(out: &mut String, n: u64)
    ensures
        final(out)@ == old(out)@ + grouped(n as nat),
    decreases n,
{
    if n >= 1000 {
        push_grouped(out, n / 1000);
        out.push(',');
        push_padded(out, (n % 1000) as i64, 3);
        assert(out@ =~= old(out)@ + grouped(n as nat));
    } else {
        push_decimal(out, n as u128);
    }
}

pub fn commas(n: i64) -> (r: String)
    ensures
        r@ == commas_text(n as int),
{
    let mut out = String::new();
    if n < 0 {
        out.push('-');
    }
    push_grouped(&mut out, crate::text::magnitude(n));
    assert(out@ =~= commas_text(n as int));
    out
}

proof fn lemma_without_commas_concat(a: Seq<char>, b: Seq<char>)
    ensures
        without(a + b, ',') == without(a, ',') + without(b, ','),
    decreases b.len(),
{
    if b.len() == 0 {
        assert(a + b =~= a);
        assert(without(a, ',') + without(b, ',') =~= without(a, ','));
    } else {
        assert((a + b).drop_last() =~= a + b.drop_last());
        lemma_without_commas_concat(a, b.drop_last());
        assert(without(a + b, ',') =~= without(a, ',') + without(b, ','));
    }
}

proof fn lemma_no_commas(s: Seq<char>)
    requires
        forall|i: int| 0 <= i < s.len() ==> s[i] != ',',
    ensures
        without(s, ',') == s,
    decreases s.len(),
{
    if s.len() > 0 {
        lemma_no_commas(s.drop_last());
        assert(without(s, ',') =~= s);
    } else {
        assert(without(s, ',') =~= s);
    }
}

/// The last three digits of a number stand apart from the rest.
proof fn lemma_decimal_groups(n: nat)
    requires
        n >= 1000,
    ensures
        decimal(n) == decimal(n / 1000) + padded((n % 1000) as int, 3),
{
    let m = n % 1000;
    assert(n / 10 / 10 == n / 100 && n / 100 / 10 == n / 1000);
    assert(decimal(n) == decimal(n / 10).push(digit((n % 10) as int)));
    assert(decimal(n / 10) == decimal(n / 100).push(digit((n / 10 % 10) as int)));
    assert(decimal(n / 100) == decimal(n / 1000).push(digit((n / 100 % 10) as int)));
    assert(m % 10 == n % 10 && m / 10 % 10 == n / 10 % 10 && m / 100 == n / 100 % 10);
    let last = seq![
        digit((m / 100) as int),
        digit((m / 10 % 10) as int),
        digit((m % 10) as int),
    ];
    assert(padded(m as int, 3) =~= last) by {
        reveal_with_fuel(decimal, 4);
        assert(m / 10 / 10 == m / 100);
        if m < 10 {
            assert(decimal(m).len() == 1);
            assert(zeros(2) =~= seq!['0', '0']);
        } else if m < 100 {
            assert(decimal(m).len() == 2);
            assert(zeros(1) =~= seq!['0']);
        } else {
            assert(decimal(m).len() == 3);
            assert(zeros(0) =~= Seq::<char>::empty());
        }
    }
    assert(decimal(n) =~= decimal(n / 1000) + last);
}

proof fn lemma_grouped_without_commas(n: nat)
    ensures
        without(grouped(n), ',') == decimal(n),
    decreases n,
{
    if n < 1000 {
        lemma_decimal_digits(n);
        lemma_no_commas(decimal(n));
    } else {
        let last = padded((n % 1000) as int, 3);
        lemma_grouped_without_commas(n / 1000);
        lemma_decimal_groups(n);
        lemma_decimal_digits(n);
        assert forall|i: int| 0 <= i < last.len() implies last[i] != ',' by {
            assert(last[i] == decimal(n)[decimal(n / 1000).len() + i]);
        }
        lemma_no_commas(last);
        lemma_without_commas_concat(grouped(n / 1000) + seq![','], last);
        lemma_without_commas_concat(grouped(n / 1000), seq![',']);
        assert(seq![','].drop_last() =~= Seq::<char>::empty());
        assert(without(Seq::<char>::empty(), ',') =~= Seq::<char>::empty());
        assert(without(grouped(n), ',') =~= decimal(n));
    }
}

/// Without its commas, a count reads as the number.
pub proof fn law_commas_only_group(n: int)
    ensures
        without(commas_text(n), ',') == integer(n),
{
    if n < 0 {
        lemma_grouped_without_commas((-n) as nat);
        lemma_without_commas_concat(seq!['-'], grouped((-n) as nat));
        lemma_no_commas(seq!['-']);
    } else {
        lemma_grouped_without_commas(n as nat);
    }
}

/// The commas of a count stand before every third digit from the right, and nowhere else.
pub proof fn law_commas_stand_every_three_digits(n: nat, i: int)
    requires
        0 <= i < commas_text(n as int).len(),
    ensures
        commas_text(n as int)[commas_text(n as int).len() - 1 - i] == ',' <==> i % 4 == 3,
        commas_text(n as int)[0] != ',',
    decreases n,
{
    let s = grouped(n);
    let at = s.len() - 1 - i;
    if n < 1000 {
        lemma_decimal_digits(n);
        assert('0' <= decimal(n)[at] <= '9');
        assert('0' <= decimal(n)[0] <= '9');
        reveal_with_fuel(crate::text::pow10, 4);
        crate::text::lemma_decimal_width(n, 3);
    } else {
        let head = grouped(n / 1000);
        let last = padded((n % 1000) as int, 3);
        lemma_decimal_groups(n);
        lemma_decimal_digits(n);
        assert(last.len() == 3) by {
            reveal_with_fuel(crate::text::pow10, 4);
            crate::text::lemma_decimal_width((n % 1000) as nat, 3);
        }
        assert(head.len() > 0) by {
            lemma_grouped_has_a_digit(n / 1000);
        }
        law_commas_stand_every_three_digits(n / 1000, head.len() - 1);
        if i < 3 {
            assert(s[at] == last[2 - i]);
            assert(last[2 - i] == decimal(n)[decimal(n / 1000).len() + 2 - i]);
        } else if i > 3 {
            law_commas_stand_every_three_digits(n / 1000, i - 4);
            assert(s[at] == head[head.len() - 1 - (i - 4)]);
        }
        assert(s[0] == head[0]);
    }
}

proof fn lemma_grouped_has_a_digit(n: nat)
    ensures
        grouped(n).len() > 0,
    decreases n,
{
    if n < 1000 {
        lemma_decimal_digits(n);
    } else {
        lemma_grouped_has_a_digit(n / 1000);
    }
}

/// The size of a rate, the largest one for the rate that has no positive twin.
pub open spec fn rate_size(v: int) -> int {
    if v == i64::MIN {
        i64::MAX as int
    } else if v < 0 {
        -v
    } else {
        v
    }
}

/// Which way a rate points. Direction changes the glyph, never the colour.
pub open spec fn arrow_text(v: int) -> Seq<char> {
    if v < 0 {
        "▼"@
    } else {
        "▲"@
    }
}

pub open spec fn direction_text(v: int) -> Seq<char> {
    if v < 0 {
        "losing"@
    } else {
        "gaining"@
    }
}

pub open spec fn rate_text(v: int) -> Seq<char> {
    commas_text(rate_size(v)) + "/day"@
}

pub open spec fn delta_text(v: int) -> Seq<char> {
    arrow_text(v) + " "@ + rate_text(v)
}

pub open spec fn gain_text(v: int) -> Seq<char> {
    direction_text(v) + " "@ + commas_text(rate_size(v)) + " per day"@
}

pub open spec fn proxy_text(avg: int) -> Seq<char> {
    "~"@ + commas_text(avg) + " avg"@
}

/// A rate is printed with its direction and its size, a gain and a standstill upwards and a
/// decline downwards, and an average with its mark; without their commas the numbers are theirs.
pub proof fn law_numbers_are_printed_with_their_direction(v: int)
    requires
        i64::MIN < v <= i64::MAX,
    ensures
        v >= 0 ==> without(delta_text(v), ',') == "▲ "@ + decimal(v as nat) + "/day"@,
        v < 0 ==> without(delta_text(v), ',') == "▼ "@ + decimal((-v) as nat) + "/day"@,
        v >= 0 ==> without(gain_text(v), ',') == "gaining "@ + decimal(v as nat) + " per day"@,
        v < 0 ==> without(gain_text(v), ',') == "losing "@ + decimal((-v) as nat) + " per day"@,
        without(proxy_text(v), ',') == "~"@ + integer(v) + " avg"@,
{
    reveal_strlit("▲");
    reveal_strlit("▼");
    reveal_strlit("▲ ");
    reveal_strlit("▼ ");
    reveal_strlit(" ");
    reveal_strlit("/day");
    reveal_strlit("gaining");
    reveal_strlit("losing");
    reveal_strlit("gaining ");
    reveal_strlit("losing ");
    reveal_strlit(" per day");
    reveal_strlit("~");
    reveal_strlit(" avg");
    let size = rate_size(v);
    let count = commas_text(size);
    law_commas_only_group(size);
    law_commas_only_group(v);
    lemma_no_commas(arrow_text(v));
    lemma_no_commas(direction_text(v));
    lemma_no_commas(" "@);
    lemma_no_commas("/day"@);
    lemma_no_commas(" per day"@);
    lemma_no_commas("~"@);
    lemma_no_commas(" avg"@);
    lemma_without_commas_concat(count, "/day"@);
    lemma_without_commas_concat(arrow_text(v) + " "@, rate_text(v));
    lemma_without_commas_concat(arrow_text(v), " "@);
    lemma_without_commas_concat(direction_text(v), " "@);
    lemma_without_commas_concat(direction_text(v) + " "@, count);
    lemma_without_commas_concat(direction_text(v) + " "@ + count, " per day"@);
    lemma_without_commas_concat("~"@, commas_text(v));
    lemma_without_commas_concat("~"@ + commas_text(v), " avg"@);
    if v >= 0 {
        assert("▲"@ + " "@ =~= "▲ "@);
        assert("gaining"@ + " "@ =~= "gaining "@);
        assert(without(delta_text(v), ',') =~= "▲ "@ + decimal(v as nat) + "/day"@);
    } else {
        assert("▼"@ + " "@ =~= "▼ "@);
        assert("losing"@ + " "@ =~= "losing "@);
        assert(without(delta_text(v), ',') =~= "▼ "@ + decimal((-v) as nat) + "/day"@);
    }
}

/// A lifetime average always wears the mark that says it is one.
pub proof fn law_averages_wear_the_tilde(avg: int)
    ensures
        proxy_text(avg).len() > 0,
        proxy_text(avg)[0] == '~',
{
    reveal_strlit("~");
}

fn rate_magnitude(v: i64) -> (r: i64)
    ensures
        r == rate_size(v as int),
{
    if v == i64::MIN {
        i64::MAX
    } else if v < 0 {
        -v
    } else {
        v
    }
}

pub fn arrow(v: i64) -> (r: &'static str)
    ensures
        r@ == arrow_text(v as int),
{
    if v < 0 {
        "▼"
    } else {
        "▲"
    }
}

pub fn direction(v: i64) -> (r: &'static str)
    ensures
        r@ == direction_text(v as int),
{
    if v < 0 {
        "losing"
    } else {
        "gaining"
    }
}

pub fn rate(v: i64) -> (r: String)
    ensures
        r@ == rate_text(v as int),
{
    let mut out = commas(rate_magnitude(v));
    out.append("/day");
    out
}

/// Direction changes the glyph, never the colour: measured is measured.
pub fn delta(v: i64) -> (r: String)
    ensures
        r@ == delta_text(v as int),
{
    let mut out = arrow(v).to_owned();
    out.append(" ");
    out.append(rate(v).as_str());
    out
}

pub fn gain_phrase(v: i64) -> (r: String)
    ensures
        r@ == gain_text(v as int),
{
    let mut out = direction(v).to_owned();
    out.append(" ");
    out.append(commas(rate_magnitude(v)).as_str());
    out.append(" per day");
    out
}

pub fn proxy_avg(avg: i64) -> (r: String)
    ensures
        r@ == proxy_text(avg as int),
{
    let mut out = "~".to_owned();
    out.append(commas(avg).as_str());
    out.append(" avg");
    out
}

/// A share as a percentage. Sub-1% percentiles keep a decimal and never round down to a
/// bare 0.
pub open spec fn percent_text(p: Share) -> Seq<char> {
    let ahead = p.ahead as int;
    let pool = p.pool as int;
    if 100 * ahead >= pool {
        integer(half_even(100 * ahead, pool))
    } else if half_even(1000 * ahead, pool) >= 10 {
        "1"@
    } else if half_even(1000 * ahead, pool) <= 1 {
        "0.1"@
    } else {
        "0."@ + integer(half_even(1000 * ahead, pool))
    }
}

/// A percentile never reads as a bare zero: it is a whole number from 1 on, or one decimal
/// under it.
pub proof fn law_percentiles_never_read_zero(p: Share)
    requires
        p.pool > 0,
    ensures
        percent_text(p) == "1"@ || percent_text(p) == "0.1"@ || (exists|k: int|
            k >= 1 && percent_text(p) == #[trigger] integer(k)) || (exists|k: int|
            1 < k < 10 && percent_text(p) == "0."@ + #[trigger] integer(k)),
{
    let ahead = p.ahead as int;
    let pool = p.pool as int;
    if 100 * ahead >= pool {
        let n = 100 * ahead;
        vstd::arithmetic::div_mod::lemma_fundamental_div_mod(n, pool);
        vstd::arithmetic::div_mod::lemma_mod_bound(n, pool);
        assert(n / pool >= 1) by (nonlinear_arith)
            requires
                n == pool * (n / pool) + n % pool,
                n % pool < pool,
                n >= pool,
                pool > 0,
        ;
        assert(percent_text(p) == integer(half_even(n, pool)));
    } else if 1 < half_even(1000 * ahead, pool) < 10 {
        assert(percent_text(p) == "0."@ + integer(half_even(1000 * ahead, pool)));
    }
}

/// A percentage is the part that a share is of its pool: from one percent on the nearest whole
/// number, and under it the nearest tenth, which neither falls to nothing nor reads as more than
/// one.
pub proof fn law_percentages_are_of_the_pool(p: Share)
    requires
        p.pool > 0,
    ensures
        100 * p.ahead >= p.pool ==> exists|k: int|
            percent_text(p) == #[trigger] integer(k) && nearest(k, p.pool as int, 100 * p.ahead),
        100 * p.ahead < p.pool ==> exists|t: int|
            nearest(t, p.pool as int, 1000 * p.ahead) && percent_text(p) == if t >= 10 {
                "1"@
            } else if t <= 1 {
                "0.1"@
            } else {
                "0."@ + #[trigger] integer(t)
            },
{
    let pool = p.pool as int;
    let k = half_even(100 * p.ahead, pool);
    let t = half_even(1000 * p.ahead, pool);
    law_half_even_is_nearest(100 * p.ahead, pool);
    law_half_even_is_nearest(1000 * p.ahead, pool);
    assert(integer(k) == integer(k) && integer(t) == integer(t));
}

pub fn percent(p: Share) -> (r: String)
    requires
        p.pool > 0,
    ensures
        r@ == percent_text(p),
{
    let ahead: i128 = p.ahead as i128;
    let pool: i128 = p.pool as i128;
    if 100 * ahead >= pool {
        return integer_text(nearest_even(100 * ahead, pool));
    }
    let tenths = nearest_even(1000 * ahead, pool);
    if tenths >= 10 {
        "1".to_owned()
    } else if tenths <= 1 {
        "0.1".to_owned()
    } else {
        let mut out = "0.".to_owned();
        out.append(integer_text(tenths).as_str());
        out
    }
}

/// Tenths with their one decimal.
pub open spec fn tenths_text(t: int) -> Seq<char> {
    if t < 0 {
        "-"@ + tenths_text_of((-t) as nat)
    } else {
        tenths_text_of(t as nat)
    }
}

pub open spec fn tenths_text_of(t: nat) -> Seq<char> {
    decimal(t / 10) + "."@ + decimal(t % 10)
}

/// A length in tenths is printed in pixels: the whole ones, a point and the tenth that is left,
/// behind a sign where it is negative; a coordinate leaves the tenth out where there is none.
pub proof fn law_tenths_are_printed_in_pixels(pixels: nat, tenth: int)
    requires
        0 <= tenth <= 9,
    ensures
        tenths_text(10 * pixels + tenth) == decimal(pixels) + seq!['.', digit(tenth)],
        10 * pixels + tenth > 0 ==> tenths_text(-(10 * pixels + tenth)) == seq!['-'] + decimal(pixels)
            + seq!['.', digit(tenth)],
        coord_text(10 * pixels + tenth) == if tenth == 0 {
            decimal(pixels)
        } else {
            decimal(pixels) + seq!['.', digit(tenth)]
        },
{
    reveal_strlit(".");
    reveal_strlit("-");
    let t = (10 * pixels + tenth) as nat;
    assert(t / 10 == pixels && t % 10 == tenth);
    assert(decimal(tenth as nat) =~= seq![digit(tenth)]);
    assert(tenths_text_of(t) =~= decimal(pixels) + seq!['.', digit(tenth)]);
    if t > 0 {
        assert(tenths_text(-(t as int)) =~= seq!['-'] + decimal(pixels) + seq!['.', digit(tenth)]);
    }
}

/// A coordinate: whole ones print bare, the rest keep their one decimal.
pub open spec fn coord_text(t: int) -> Seq<char> {
    if t % 10 == 0 {
        integer(t / 10)
    } else {
        tenths_text(t)
    }
}

/// A bound on lengths and coordinates, far beyond any page.
pub open spec fn printable(t: int) -> bool {
    -0x1000_0000_0000_0000_0000_0000_0000_0000 <= t <= 0x1000_0000_0000_0000_0000_0000_0000_0000
}

pub fn one_decimal(t: i128) -> (r: String)
    requires
        printable(t as int),
    ensures
        r@ == tenths_text(t as int),
{
    if t < 0 {
        let mut out = "-".to_owned();
        out.append(unsigned_tenths((-t) as u128).as_str());
        out
    } else {
        unsigned_tenths(t as u128)
    }
}

fn unsigned_tenths(t: u128) -> (r: String)
    ensures
        r@ == tenths_text_of(t as nat),
{
    let mut out = String::new();
    push_decimal(&mut out, t / 10);
    assert(out@ =~= decimal(t as nat / 10));
    out.append(".");
    push_decimal(&mut out, t % 10);
    out
}

pub fn coord(t: i128) -> (r: String)
    requires
        printable(t as int),
    ensures
        r@ == coord_text(t as int),
{
    if t % 10 == 0 {
        integer_text(t / 10)
    } else {
        one_decimal(t)
    }
}

// ---------------------------------------------------------------- escaping

/// What stands for a character in an SVG text node or attribute.
pub open spec fn escaped_char(c: char) -> Seq<char> {
    if c == '&' {
        "&amp;"@
    } else if c == '<' {
        "&lt;"@
    } else if c == '>' {
        "&gt;"@
    } else if c == '"' {
        "&quot;"@
    } else if c == '\'' {
        "&apos;"@
    } else {
        seq![c]
    }
}

/// A text with its markup characters written out.
pub open spec fn escaped(s: Seq<char>) -> Seq<char>
    decreases s.len(),
{
    if s.len() == 0 {
        Seq::empty()
    } else {
        escaped(s.drop_last()) + escaped_char(s.last())
    }
}

/// A name arrives from a URL; nothing reaches an SVG text node or attribute unescaped.
pub fn xml_escape(s: &str) -> (r: String)
    ensures
        r@ == escaped(s@),
{
    let v = to_chars(s);
    let mut out = String::new();
    let mut i: usize = 0;
    assert(s@.take(0) =~= Seq::<char>::empty());
    while i < v.len()
        invariant
            i <= v.len(),
            v@ == s@,
            out@ == escaped(s@.take(i as int)),
        decreases v.len() - i,
    {
        let c = v[i];
        let ghost sofar = out@;
        if c == '&' {
            out.append("&amp;");
        } else if c == '<' {
            out.append("&lt;");
        } else if c == '>' {
            out.append("&gt;");
        } else if c == '"' {
            out.append("&quot;");
        } else if c == '\'' {
            out.append("&apos;");
        } else {
            out.push(c);
            assert(out@ =~= sofar + seq![c]);
        }
        assert(s@.take(i + 1).drop_last() =~= s@.take(i as int));
        assert(s@.take(i + 1).last() == c);
        i += 1;
    }
    assert(s@.take(i as int) =~= s@);
    out
}

/// No markup character is left in an escaped text but the ampersand of an entity, so it
/// can neither open a tag nor end an attribute.
pub proof fn law_escaped_text_holds_no_markup(s: Seq<char>)
    ensures
        forall|i: int|
            0 <= i < escaped(s).len() ==> {
                let c = #[trigger] escaped(s)[i];
                c != '<' && c != '>' && c != '"' && c != '\''
            },
    decreases s.len(),
{
    reveal_strlit("&amp;");
    reveal_strlit("&lt;");
    reveal_strlit("&gt;");
    reveal_strlit("&quot;");
    reveal_strlit("&apos;");
    if s.len() > 0 {
        law_escaped_text_holds_no_markup(s.drop_last());
        let head = escaped(s.drop_last());
        assert forall|i: int| 0 <= i < escaped(s).len() implies {
            let c = #[trigger] escaped(s)[i];
            c != '<' && c != '>' && c != '"' && c != '\''
        } by {
            if i < head.len() {
                assert(escaped(s)[i] == head[i]);
            } else {
                assert(escaped(s)[i] == escaped_char(s.last())[i - head.len()]);
            }
        }
    }
}

/// Escaping goes through a text piece by piece.
pub proof fn law_texts_escape_piece_by_piece(a: Seq<char>, b: Seq<char>)
    ensures
        escaped(a + b) == escaped(a) + escaped(b),
    decreases b.len(),
{
    if b.len() == 0 {
        assert(a + b =~= a);
        assert(escaped(a) + escaped(b) =~= escaped(a));
    } else {
        assert((a + b).drop_last() =~= a + b.drop_last());
        law_texts_escape_piece_by_piece(a, b.drop_last());
        assert(escaped(a + b) =~= escaped(a) + escaped(b));
    }
}

/// What a reader of XML makes of a text: the five entities stand for their characters.
pub open spec fn unescaped(s: Seq<char>) -> Seq<char>
    decreases s.len(),
{
    if s.len() == 0 {
        Seq::empty()
    } else if s.len() >= 5 && starts_with(s, "&amp;"@) {
        seq!['&'] + unescaped(s.skip(5))
    } else if s.len() >= 4 && starts_with(s, "&lt;"@) {
        seq!['<'] + unescaped(s.skip(4))
    } else if s.len() >= 4 && starts_with(s, "&gt;"@) {
        seq!['>'] + unescaped(s.skip(4))
    } else if s.len() >= 6 && starts_with(s, "&quot;"@) {
        seq!['"'] + unescaped(s.skip(6))
    } else if s.len() >= 6 && starts_with(s, "&apos;"@) {
        seq!['\''] + unescaped(s.skip(6))
    } else {
        seq![s[0]] + unescaped(s.skip(1))
    }
}

#[verifier::spinoff_prover]
#[verifier::rlimit(60)]
proof fn lemma_mark_reads_back(c: char, rest: Seq<char>)
    ensures
        unescaped(escaped_char(c) + rest) == seq![c] + unescaped(rest),
{
    let mark = escaped_char(c);
    let whole = mark + rest;
    reveal_strlit("&amp;");
    reveal_strlit("&lt;");
    reveal_strlit("&gt;");
    reveal_strlit("&quot;");
    reveal_strlit("&apos;");
    assert(whole.skip(mark.len() as int) =~= rest);
    assert(whole.take(mark.len() as int) =~= mark);
    assert(whole[0] == mark[0]);
    assert forall|other: Seq<char>| #[trigger] starts_with(whole, other) implies forall|i: int|
        0 <= i < other.len() ==> #[trigger] other[i] == whole[i] by {
        assert forall|i: int| 0 <= i < other.len() implies #[trigger] other[i] == whole[i] by {
            assert(whole.take(other.len() as int)[i] == whole[i]);
        }
    }
    if c == '&' || c == '<' || c == '>' || c == '"' || c == '\'' {
        assert(whole[1] == mark[1] && whole[2] == mark[2]);
        assert(starts_with(whole, mark));
    }
}

/// An escaped text reads back as the text.
pub proof fn law_escaped_text_reads_back(s: Seq<char>)
    ensures
        unescaped(escaped(s)) == s,
    decreases s.len(),
{
    if s.len() > 0 {
        let c = s[0];
        let rest = s.skip(1);
        law_escaped_text_reads_back(rest);
        assert(s =~= seq![c] + rest);
        law_texts_escape_piece_by_piece(seq![c], rest);
        assert(seq![c].drop_last() =~= Seq::<char>::empty());
        assert(escaped(Seq::<char>::empty()) =~= Seq::<char>::empty());
        assert(escaped(seq![c]) =~= escaped_char(c));
        lemma_mark_reads_back(c, escaped(rest));
    } else {
        assert(unescaped(escaped(s)) =~= s);
    }
}

/// A text without markup characters is left as it is.
pub proof fn law_plain_text_is_not_changed(s: Seq<char>)
    requires
        forall|i: int|
            0 <= i < s.len() ==> {
                let c = #[trigger] s[i];
                c != '&' && c != '<' && c != '>' && c != '"' && c != '\''
            },
    ensures
        escaped(s) == s,
    decreases s.len(),
{
    if s.len() > 0 {
        let t = s.drop_last();
        assert forall|i: int| 0 <= i < t.len() implies {
            let c = #[trigger] t[i];
            c != '&' && c != '<' && c != '>' && c != '"' && c != '\''
        } by {
            assert(t[i] == s[i]);
        }
        law_plain_text_is_not_changed(t);
        assert(s.last() == s[s.len() - 1]);
        assert(escaped(s) =~= s);
    } else {
        assert(escaped(s) =~= s);
    }
}

// ---------------------------------------------------------------- measuring text

/// How many font units make a pixel.
pub const UNITS_PER_PX: u32 = 2048;

/// The advances and kerns of a font at one size, in font units.
pub struct Face {
    pub advances: Vec<(char, u32)>,
    pub kerns: Vec<(char, char, i32)>,
}

/// The fonts that badges are measured in.
pub struct Fonts {
    pub verdana_11: Face,
    pub helvetica_bold_20: Face,
}

/// The advance of a character that a table has.
pub open spec fn table_advance(table: Seq<(char, u32)>, c: char) -> Option<int>
    decreases table.len(),
{
    if table.len() == 0 {
        None
    } else if table[0].0 == c {
        Some(table[0].1 as int)
    } else {
        table_advance(table.skip(1), c)
    }
}

/// The kern of a pair, zero for one that the table has not.
pub open spec fn table_kern(table: Seq<(char, char, i32)>, a: char, b: char) -> int
    decreases table.len(),
{
    if table.len() == 0 {
        0
    } else if table[0].0 == a && table[0].1 == b {
        table[0].2 as int
    } else {
        table_kern(table.skip(1), a, b)
    }
}

impl Face {
    /// Widths are only ever taken over digits and the fixed wording; a digit is the safe
    /// fallback.
    pub open spec fn advance_of(self, c: char) -> int {
        match table_advance(self.advances@, c) {
            Some(w) => w,
            None => match table_advance(self.advances@, '0') {
                Some(w) => w,
                None => 0,
            },
        }
    }

    /// The width of a whole text: summed advances plus the kern of every adjacent pair.
    pub open spec fn width_of(self, s: Seq<char>) -> int
        decreases s.len(),
    {
        if s.len() == 0 {
            0
        } else {
            self.width_of(s.drop_last()) + self.advance_of(s.last()) + (if s.len() > 1 {
                table_kern(self.kerns@, s[s.len() - 2], s.last())
            } else {
                0
            })
        }
    }

    fn find(&self, c: char) -> (r: Option<u32>)
        ensures
            match r {
                Some(w) => table_advance(self.advances@, c) == Some(w as int),
                None => table_advance(self.advances@, c) is None,
            },
    {
        let mut i: usize = 0;
        assert(self.advances@.skip(0) =~= self.advances@);
        while i < self.advances.len()
            invariant
                i <= self.advances.len(),
                table_advance(self.advances@, c) == table_advance(self.advances@.skip(i as int), c),
            decreases self.advances.len() - i,
        {
            if self.advances[i].0 == c {
                return Some(self.advances[i].1);
            }
            assert(self.advances@.skip(i as int).skip(1) =~= self.advances@.skip(i + 1));
            i += 1;
        }
        None
    }

    fn advance(&self, c: char) -> (r: u32)
        ensures
            r == self.advance_of(c),
    {
        match self.find(c) {
            Some(w) => w,
            None => match self.find('0') {
                Some(w) => w,
                None => 0,
            },
        }
    }

    fn kern(&self, a: char, b: char) -> (r: i32)
        ensures
            r == table_kern(self.kerns@, a, b),
    {
        let mut i: usize = 0;
        assert(self.kerns@.skip(0) =~= self.kerns@);
        while i < self.kerns.len()
            invariant
                i <= self.kerns.len(),
                table_kern(self.kerns@, a, b) == table_kern(self.kerns@.skip(i as int), a, b),
            decreases self.kerns.len() - i,
        {
            if self.kerns[i].0 == a && self.kerns[i].1 == b {
                return self.kerns[i].2;
            }
            assert(self.kerns@.skip(i as int).skip(1) =~= self.kerns@.skip(i + 1));
            i += 1;
        }
        0
    }

    /// The width of a text in font units.
    pub fn text_width(&self, s: &str) -> (w: i128)
        ensures
            w == self.width_of(s@),
            -0x4_0000_0000_0000_0000_0000_0000 <= w <= 0x4_0000_0000_0000_0000_0000_0000,
    {
        let v = to_chars(s);
        let mut w: i128 = 0;
        let mut i: usize = 0;
        assert(s@.take(0) =~= Seq::<char>::empty());
        while i < v.len()
            invariant
                i <= v.len(),
                v@ == s@,
                w == self.width_of(s@.take(i as int)),
                -0x1_0000_0000 * i <= w <= 0x2_0000_0000 * i,
            decreases v.len() - i,
        {
            let c = v[i];
            assert(s@.take(i + 1).drop_last() =~= s@.take(i as int));
            assert(s@.take(i + 1).last() == c);
            w = w + self.advance(c) as i128;
            if i > 0 {
                assert(s@.take(i + 1)[i - 1] == v@[i - 1]);
                w = w + self.kern(v[i - 1], c) as i128;
            }
            i += 1;
        }
        assert(s@.take(i as int) =~= s@);
        w
    }
}

/// The width of a text is that of its pieces and the kern where they meet, and the width of a
/// character is the first advance that the table has for it, that of a zero where it has none.
pub proof fn law_widths_add_up(face: Face, a: Seq<char>, b: Seq<char>, c: char)
    ensures
        a.len() > 0 && b.len() > 0 ==> face.width_of(a + b) == face.width_of(a) + face.width_of(b)
            + table_kern(face.kerns@, a.last(), b[0]),
        face.width_of(seq![c]) == face.advance_of(c),
        face.width_of(Seq::<char>::empty()) == 0,
    decreases b.len(),
{
    assert(seq![c].drop_last() =~= Seq::<char>::empty());
    assert(face.width_of(Seq::<char>::empty()) == 0);
    if a.len() > 0 && b.len() > 0 {
        let all = a + b;
        let t = b.drop_last();
        assert(all.drop_last() =~= a + t);
        assert(all.last() == b.last());
        if b.len() == 1 {
            assert(a + t =~= a);
            assert(t =~= Seq::<char>::empty());
            assert(all[all.len() - 2] == a.last());
        } else {
            law_widths_add_up(face, a, t, c);
            assert(t[0] == b[0]);
            assert(all[all.len() - 2] == b[b.len() - 2]);
        }
    }
}

/// The first entry of a table counts, of advances and of kerns; a pair that a table has not is
/// not kerned.
pub proof fn law_the_first_entry_of_a_table_counts(face: Face, c: char, d: char, k: int)
    ensures
        0 <= k < face.advances@.len() && face.advances@[k].0 == c && (forall|j: int|
            0 <= j < k ==> (#[trigger] face.advances@[j]).0 != c) ==> face.advance_of(c)
            == face.advances@[k].1,
        (forall|j: int| 0 <= j < face.advances@.len() ==> (#[trigger] face.advances@[j]).0 != c)
            ==> face.advance_of(c) == (match table_advance(face.advances@, '0') {
            Some(w) => w,
            None => 0,
        }),
        0 <= k < face.kerns@.len() && face.kerns@[k].0 == c && face.kerns@[k].1 == d && (forall|j: int|
            0 <= j < k ==> (#[trigger] face.kerns@[j]).0 != c || face.kerns@[j].1 != d)
            ==> table_kern(face.kerns@, c, d) == face.kerns@[k].2,
        (forall|j: int|
            0 <= j < face.kerns@.len() ==> (#[trigger] face.kerns@[j]).0 != c || face.kerns@[j].1
                != d) ==> table_kern(face.kerns@, c, d) == 0,
{
    lemma_first_advance(face.advances@, c, k);
    lemma_first_kern(face.kerns@, c, d, k);
}

proof fn lemma_first_advance(table: Seq<(char, u32)>, c: char, k: int)
    ensures
        0 <= k < table.len() && table[k].0 == c && (forall|j: int|
            0 <= j < k ==> (#[trigger] table[j]).0 != c) ==> table_advance(table, c) == Some(
            table[k].1 as int,
        ),
        (forall|j: int| 0 <= j < table.len() ==> (#[trigger] table[j]).0 != c) ==> table_advance(
            table,
            c,
        ) is None,
    decreases table.len(),
{
    if table.len() > 0 {
        let rest = table.skip(1);
        lemma_first_advance(rest, c, k - 1);
        assert(forall|j: int| 0 <= j < rest.len() ==> #[trigger] rest[j] == table[j + 1]);
        if 0 < k < table.len() && table[k].0 == c && (forall|j: int|
            0 <= j < k ==> (#[trigger] table[j]).0 != c) {
            assert(table[0].0 != c);
            assert(rest[k - 1] == table[k]);
        }
        if forall|j: int| 0 <= j < table.len() ==> (#[trigger] table[j]).0 != c {
            assert(table[0].0 != c);
        }
    }
}

proof fn lemma_first_kern(table: Seq<(char, char, i32)>, c: char, d: char, k: int)
    ensures
        0 <= k < table.len() && table[k].0 == c && table[k].1 == d && (forall|j: int|
            0 <= j < k ==> (#[trigger] table[j]).0 != c || table[j].1 != d) ==> table_kern(
            table,
            c,
            d,
        ) == table[k].2,
        (forall|j: int| 0 <= j < table.len() ==> (#[trigger] table[j]).0 != c || table[j].1 != d)
            ==> table_kern(table, c, d) == 0,
    decreases table.len(),
{
    if table.len() > 0 {
        let rest = table.skip(1);
        lemma_first_kern(rest, c, d, k - 1);
        assert(forall|j: int| 0 <= j < rest.len() ==> #[trigger] rest[j] == table[j + 1]);
        if 0 < k < table.len() && table[k].0 == c && table[k].1 == d && (forall|j: int|
            0 <= j < k ==> (#[trigger] table[j]).0 != c || table[j].1 != d) {
            assert(table[0].0 != c || table[0].1 != d);
            assert(rest[k - 1] == table[k]);
        }
        if forall|j: int| 0 <= j < table.len() ==> (#[trigger] table[j]).0 != c || table[j].1 != d {
            assert(table[0].0 != c || table[0].1 != d);
        }
    }
}

// ---------------------------------------------------------------- the pill

/// Where the parts of a pill stand: widths in tenths of a pixel, text positions and
/// lengths at ten times the scale.
pub struct PillGeometry {
    pub label_width: int,
    pub value_width: int,
    pub width: int,
    pub label_x: int,
    pub value_x: int,
    pub label_length: int,
    pub value_length: int,
}

/// The geometry for a label and a value of given widths in font units. A star of 12px and
/// its gaps take 20px before the label; every text has 5px beside it.
pub open spec fn pill_geometry(label: int, value: int) -> PillGeometry {
    let px = UNITS_PER_PX as int;
    let label_width = half_even(10 * (25 * px + label), px);
    let value_width = half_even(10 * (10 * px + value), px);
    PillGeometry {
        label_width,
        value_width,
        width: label_width + value_width,
        label_x: half_even(10 * (40 * px + label), 2 * px),
        value_x: half_even(2 * label_width + value_width, 2),
        label_length: half_even(10 * label, px),
        value_length: half_even(10 * value, px),
    }
}

/// The boxes of a pill fit their texts to the tenth of a pixel: 25 pixels around the label with
/// its star, 10 around the value. Each text stands in the middle of its room and is as long as it
/// measures, and the pill is as wide as its boxes.
pub proof fn law_a_pill_fits_its_texts(label: int, value: int)
    ensures
        ({
            let g = pill_geometry(label, value);
            &&& g.width == g.label_width + g.value_width
            &&& nearest(g.label_width, 2048, 10 * (25 * 2048 + label))
            &&& nearest(g.value_width, 2048, 10 * (10 * 2048 + value))
            &&& nearest(g.label_length, 2048, 10 * label)
            &&& nearest(g.value_length, 2048, 10 * value)
            &&& nearest(g.label_x, 4096, 10 * (2 * 20 * 2048 + label))
            &&& nearest(g.value_x, 2, 2 * g.label_width + g.value_width)
        }),
{
    let px = UNITS_PER_PX as int;
    let g = pill_geometry(label, value);
    law_half_even_is_nearest(10 * (25 * px + label), px);
    law_half_even_is_nearest(10 * (10 * px + value), px);
    law_half_even_is_nearest(10 * label, px);
    law_half_even_is_nearest(10 * value, px);
    law_half_even_is_nearest(10 * (40 * px + label), 2 * px);
    law_half_even_is_nearest(2 * g.label_width + g.value_width, 2);
}

/// A pill with its label, its value, the value's background and the sentence it speaks.
pub open spec fn pill_svg(
    label: Seq<char>,
    value: Seq<char>,
    value_bg: Seq<char>,
    aria: Seq<char>,
    face: Face,
) -> Seq<char> {
    let g = pill_geometry(face.width_of(label), face.width_of(value));
    r#"<svg xmlns="http://www.w3.org/2000/svg" width=""#@
        + tenths_text(g.width)
        + r#"" height="20" role="img" aria-label=""#@
        + aria
        + r#"">
<title>"#@
        + aria
        + r#"</title>
<clipPath id="r"><rect width=""#@
        + tenths_text(g.width)
        + r##"" height="20" rx="3" fill="#fff"/></clipPath>
<g clip-path="url(#r)">
<rect width=""##@
        + tenths_text(g.label_width)
        + r##"" height="20" fill="#555555"/>
<rect x=""##@
        + tenths_text(g.label_width)
        + r#"" width=""#@
        + tenths_text(g.value_width)
        + r#"" height="20" fill=""#@
        + value_bg
        + r##""/>
</g>
<path transform="translate(5,4) scale(0.75)" fill="#eac54f" d=""##@
        + STAR@
        + r#""/>
<g text-anchor="middle" font-family="Verdana,Geneva,DejaVu Sans,sans-serif" font-size="110" text-rendering="geometricPrecision">
<text aria-hidden="true" x=""#@
        + integer(g.label_x)
        + r##"" y="150" fill="#010101" fill-opacity=".3" transform="scale(.1)" textLength=""##@
        + integer(g.label_length)
        + r#"">"#@
        + label
        + r#"</text>
<text x=""#@
        + integer(g.label_x)
        + r##"" y="140" fill="#fff" transform="scale(.1)" textLength=""##@
        + integer(g.label_length)
        + r#"">"#@
        + label
        + r#"</text>
<text aria-hidden="true" x=""#@
        + integer(g.value_x)
        + r##"" y="150" fill="#ccc" fill-opacity=".3" transform="scale(.1)" textLength=""##@
        + integer(g.value_length)
        + r#"">"#@
        + value
        + r#"</text>
<text x=""#@
        + integer(g.value_x)
        + r##"" y="140" fill="#24292f" transform="scale(.1)" textLength=""##@
        + integer(g.value_length)
        + r#"">"#@
        + value
        + "</text>
</g>
</svg>"@
}

pub proof fn lemma_half_even_near(n: int, d: int)
    requires
        d > 0,
    ensures
        n >= 0 ==> 0 <= half_even(n, d) <= n + 1,
        n < 0 ==> n <= half_even(n, d) <= 1,
{
    vstd::arithmetic::div_mod::lemma_fundamental_div_mod(n, d);
    vstd::arithmetic::div_mod::lemma_mod_bound(n, d);
    let q = n / d;
    assert(n >= 0 ==> 0 <= q <= n) by (nonlinear_arith)
        requires
            n == d * q + n % d,
            0 <= n % d < d,
            d > 0,
    ;
    assert(n < 0 ==> n <= q <= 0) by (nonlinear_arith)
        requires
            n == d * q + n % d,
            0 <= n % d < d,
            d > 0,
    ;
}

pub fn render_pill(label: &str, value: &str, value_bg: &str, aria: &str, face: &Face) -> (r: String)
    ensures
        r@ == pill_svg(label@, value@, value_bg@, aria@, *face),
{
    let px: i128 = UNITS_PER_PX as i128;
    let lw = face.text_width(label);
    let vw = face.text_width(value);
    let ghost g = pill_geometry(lw as int, vw as int);
    let label_tenths = nearest_even(10 * (25 * px + lw), px);
    let value_tenths = nearest_even(10 * (10 * px + vw), px);
    proof {
        lemma_half_even_near(10 * (25 * px + lw), px as int);
        lemma_half_even_near(10 * (10 * px + vw), px as int);
    }
    let w = one_decimal(label_tenths + value_tenths);
    let label_w = one_decimal(label_tenths);
    let value_w = one_decimal(value_tenths);
    let lx = integer_text(nearest_even(10 * (40 * px + lw), 2 * px));
    let vx = integer_text(nearest_even(2 * label_tenths + value_tenths, 2));
    let ltl = integer_text(nearest_even(10 * lw, px));
    let vtl = integer_text(nearest_even(10 * vw, px));
    // Flat fills, no gloss overlay: the afterglow fade is the only gradient.
    let mut out = r#"<svg xmlns="http://www.w3.org/2000/svg" width=""#.to_owned();
    out.append(w.as_str());
    out.append(r#"" height="20" role="img" aria-label=""#);
    out.append(aria);
    out.append(r#"">
<title>"#);
    out.append(aria);
    out.append(r#"</title>
<clipPath id="r"><rect width=""#);
    out.append(w.as_str());
    out.append(r##"" height="20" rx="3" fill="#fff"/></clipPath>
<g clip-path="url(#r)">
<rect width=""##);
    out.append(label_w.as_str());
    out.append(r##"" height="20" fill="#555555"/>
<rect x=""##);
    out.append(label_w.as_str());
    out.append(r#"" width=""#);
    out.append(value_w.as_str());
    out.append(r#"" height="20" fill=""#);
    out.append(value_bg);
    out.append(r##""/>
</g>
<path transform="translate(5,4) scale(0.75)" fill="#eac54f" d=""##);
    out.append(STAR);
    out.append(r#""/>
<g text-anchor="middle" font-family="Verdana,Geneva,DejaVu Sans,sans-serif" font-size="110" text-rendering="geometricPrecision">
<text aria-hidden="true" x=""#);
    out.append(lx.as_str());
    out.append(r##"" y="150" fill="#010101" fill-opacity=".3" transform="scale(.1)" textLength=""##);
    out.append(ltl.as_str());
    out.append(r#"">"#);
    out.append(label);
    out.append(r#"</text>
<text x=""#);
    out.append(lx.as_str());
    out.append(r##"" y="140" fill="#fff" transform="scale(.1)" textLength=""##);
    out.append(ltl.as_str());
    out.append(r#"">"#);
    out.append(label);
    out.append(r#"</text>
<text aria-hidden="true" x=""#);
    out.append(vx.as_str());
    out.append(r##"" y="150" fill="#ccc" fill-opacity=".3" transform="scale(.1)" textLength=""##);
    out.append(vtl.as_str());
    out.append(r#"">"#);
    out.append(value);
    out.append(r#"</text>
<text x=""#);
    out.append(vx.as_str());
    out.append(r##"" y="140" fill="#24292f" transform="scale(.1)" textLength=""##);
    out.append(vtl.as_str());
    out.append(r#"">"#);
    out.append(value);
    out.append("</text>
</g>
</svg>");
    out
}

/// What a pill says: its value, the value's background and its sentence.
pub struct PillWords {
    pub value: Seq<char>,
    pub bg: Seq<char>,
    pub aria: Seq<char>,
}

pub open spec fn pill_words(b: RepoBadge) -> PillWords {
    let count = commas_text(b.stars as int);
    let since = escaped(b.tracked_since@);
    match b.state {
        BadgeState::Measured { velocity, .. } => PillWords {
            value: delta_text(velocity as int),
            bg: AMBER@,
            aria: "afterglow: "@ + count + " stars, "@ + gain_text(velocity as int),
        },
        BadgeState::Proxy { avg } => PillWords {
            value: proxy_text(avg as int),
            bg: PROXY_GREY@,
            aria: "afterglow: "@ + count + " stars, about "@ + commas_text(avg as int)
                + " per day lifetime average (proxy)"@,
        },
        BadgeState::Measuring => PillWords {
            value: MEASURING@,
            bg: PROXY_GREY@,
            aria: "afterglow: "@ + count + " stars, measuring — first reading tomorrow"@,
        },
        BadgeState::Enrolled => PillWords {
            value: "tracking started "@ + since + " — history begins now"@,
            bg: PROXY_GREY@,
            aria: "afterglow: tracking started "@ + since + " — history begins now"@,
        },
        BadgeState::Paused => PillWords {
            value: "tracking paused"@,
            bg: PROXY_GREY@,
            aria: "afterglow: "@ + count + " stars, tracking paused"@,
        },
    }
}

/// The pill of a tracked repo.
pub open spec fn pill_of(b: RepoBadge, fonts: Fonts) -> Seq<char> {
    let words = pill_words(b);
    pill_svg(commas_text(b.stars as int), words.value, words.bg, words.aria, fonts.verdana_11)
}

/// Three texts behind one another.
fn glue(a: &str, b: &str, c: &str) -> (r: String)
    ensures
        r@ == a@ + b@ + c@,
{
    let mut out = a.to_owned();
    out.append(b);
    out.append(c);
    out
}

/// What a pill says, ready to be printed.
pub struct PillParts {
    pub value: String,
    pub bg: &'static str,
    pub aria: String,
}

impl PillParts {
    pub open spec fn words(self) -> PillWords {
        PillWords { value: self.value@, bg: self.bg@, aria: self.aria@ }
    }
}

/// What the pill of a tracked repo says.
pub fn pill_parts(b: &RepoBadge) -> (r: PillParts)
    ensures
        r.words() == pill_words(*b),
{
    let count = commas(b.stars);
    let since = xml_escape(b.tracked_since.as_str());
    match b.state {
        BadgeState::Measured { velocity, .. } => {
            let mut aria = glue("afterglow: ", count.as_str(), " stars, ");
            aria.append(gain_phrase(velocity).as_str());
            PillParts { value: delta(velocity), bg: AMBER, aria }
        },
        BadgeState::Proxy { avg } => {
            let mut aria = glue("afterglow: ", count.as_str(), " stars, about ");
            aria.append(commas(avg).as_str());
            aria.append(" per day lifetime average (proxy)");
            PillParts { value: proxy_avg(avg), bg: PROXY_GREY, aria }
        },
        BadgeState::Measuring => PillParts {
            value: MEASURING.to_owned(),
            bg: PROXY_GREY,
            aria: glue(
                "afterglow: ",
                count.as_str(),
                " stars, measuring — first reading tomorrow",
            ),
        },
        BadgeState::Enrolled => PillParts {
            value: glue("tracking started ", since.as_str(), " — history begins now"),
            bg: PROXY_GREY,
            aria: glue("afterglow: tracking started ", since.as_str(), " — history begins now"),
        },
        BadgeState::Paused => PillParts {
            value: "tracking paused".to_owned(),
            bg: PROXY_GREY,
            aria: glue("afterglow: ", count.as_str(), " stars, tracking paused"),
        },
    }
}

pub fn pill(b: &RepoBadge, fonts: &Fonts) -> (r: String)
    ensures
        r@ == pill_of(*b, *fonts),
{
    let count = commas(b.stars);
    let parts = pill_parts(b);
    render_pill(
        count.as_str(),
        parts.value.as_str(),
        parts.bg,
        parts.aria.as_str(),
        &fonts.verdana_11,
    )
}

/// The sentence about a name that is not tracked. An empty name leaves no hole in it.
pub open spec fn not_tracked_text(full_name: Seq<char>) -> Seq<char> {
    if full_name.len() == 0 {
        "afterglow: not tracked"@
    } else {
        "afterglow: "@ + escaped(full_name) + " is not tracked"@
    }
}

pub fn not_tracked_sentence(full_name: &str) -> (r: String)
    ensures
        r@ == not_tracked_text(full_name@),
{
    if full_name.is_empty() {
        "afterglow: not tracked".to_owned()
    } else {
        glue("afterglow: ", xml_escape(full_name).as_str(), " is not tracked")
    }
}

/// The pill of a name that is not tracked.
pub open spec fn not_tracked_pill_of(full_name: Seq<char>, fonts: Fonts) -> Seq<char> {
    pill_svg(
        "afterglow"@,
        NOT_TRACKED@,
        PROXY_GREY@,
        not_tracked_text(full_name),
        fonts.verdana_11,
    )
}

pub fn not_tracked_pill(full_name: &str, fonts: &Fonts) -> (r: String)
    ensures
        r@ == not_tracked_pill_of(full_name@, *fonts),
{
    let aria = not_tracked_sentence(full_name);
    render_pill("afterglow", NOT_TRACKED, PROXY_GREY, aria.as_str(), &fonts.verdana_11)
}

// ---------------------------------------------------------------- the card

/// The per-state pieces of the card; the box around them is fixed in every state.
pub struct CardWords {
    pub aria: Seq<char>,
    pub repo: Seq<char>,
    pub name_fill: Seq<char>,
    pub nums: Seq<char>,
    pub pct: Seq<char>,
    pub spark: Seq<char>,
    pub footer: Seq<char>,
}

pub struct CardParts {
    pub aria: String,
    pub repo: String,
    pub name_fill: &'static str,
    pub nums: String,
    pub pct: String,
    pub spark: String,
    pub footer: String,
}

impl CardParts {
    pub open spec fn words(self) -> CardWords {
        CardWords {
            aria: self.aria@,
            repo: self.repo@,
            name_fill: self.name_fill@,
            nums: self.nums@,
            pct: self.pct@,
            spark: self.spark@,
            footer: self.footer@,
        }
    }
}

pub open spec fn card_svg(p: CardWords, t: Palette) -> Seq<char> {
    r#"<svg xmlns="http://www.w3.org/2000/svg" width="420" height="150" role="img" aria-label=""#@
        + p.aria
        + r#"">
<title>"#@
        + p.aria
        + r#"</title>
<rect x=".5" y=".5" width="419" height="149" rx="6" fill=""#@
        + t.canvas@
        + r#"" stroke=""#@
        + t.border@
        + r#""/>
<g font-family="Helvetica,Arial,sans-serif">
<text x="16" y="27" font-size="13" font-weight="600" fill=""#@
        + p.name_fill
        + r#"">"#@
        + p.repo
        + "</text>
"@
        + p.nums
        + "
"@
        + p.pct
        + "
"@
        + p.spark
        + "
"@
        + p.footer
        + r#"
<text x="404" y="140" font-size="10.5" text-anchor="end" fill=""#@
        + t.muted@
        + r#"">afterglow</text>
</g>
</svg>"#@
}

pub fn render_card(p: &CardParts, t: &Palette) -> (r: String)
    ensures
        r@ == card_svg(p.words(), *t),
{
    let mut out = r#"<svg xmlns="http://www.w3.org/2000/svg" width="420" height="150" role="img" aria-label=""#.to_owned();
    out.append(p.aria.as_str());
    out.append(r#"">
<title>"#);
    out.append(p.aria.as_str());
    out.append(r#"</title>
<rect x=".5" y=".5" width="419" height="149" rx="6" fill=""#);
    out.append(t.canvas);
    out.append(r#"" stroke=""#);
    out.append(t.border);
    out.append(r#""/>
<g font-family="Helvetica,Arial,sans-serif">
<text x="16" y="27" font-size="13" font-weight="600" fill=""#);
    out.append(p.name_fill);
    out.append(r#"">"#);
    out.append(p.repo.as_str());
    out.append("</text>
");
    out.append(p.nums.as_str());
    out.append("
");
    out.append(p.pct.as_str());
    out.append("
");
    out.append(p.spark.as_str());
    out.append("
");
    out.append(p.footer.as_str());
    out.append(r#"
<text x="404" y="140" font-size="10.5" text-anchor="end" fill=""#);
    out.append(t.muted);
    out.append(r#"">afterglow</text>
</g>
</svg>"#);
    out
}

/// Star, count, then the value 12px after the count's measured width.
pub open spec fn nums_svg(
    count: Seq<char>,
    value: Seq<char>,
    value_fill: Seq<char>,
    weight: Seq<char>,
    t: Palette,
    face: Face,
) -> Seq<char> {
    let width = face.width_of(count);
    r#"<path transform="translate(16,41)" fill=""#@
        + t.gold@
        + r#"" d=""#@
        + STAR@
        + r#""/>
<text x="38" y="56" font-size="20" font-weight="600" fill=""#@
        + t.fg@
        + r#"">"#@
        + count
        + r#"</text>
<text x=""#@
        + tenths_text(half_even(10 * (50 * UNITS_PER_PX + width), UNITS_PER_PX as int))
        + r#"" y="56" font-size="13" font-weight=""#@
        + weight
        + r#"" fill=""#@
        + value_fill
        + r#"">"#@
        + value
        + "</text>"@
}

pub fn nums_row(
    count: &str,
    value: &str,
    value_fill: &str,
    weight: &str,
    t: &Palette,
    face: &Face,
) -> (r: String)
    ensures
        r@ == nums_svg(count@, value@, value_fill@, weight@, *t, *face),
{
    let px: i128 = UNITS_PER_PX as i128;
    let width = face.text_width(count);
    let tenths = nearest_even(10 * (50 * px + width), px);
    proof {
        lemma_half_even_near(10 * (50 * px + width), px as int);
    }
    let x = one_decimal(tenths);
    let mut out = r#"<path transform="translate(16,41)" fill=""#.to_owned();
    out.append(t.gold);
    out.append(r#"" d=""#);
    out.append(STAR);
    out.append(r#""/>
<text x="38" y="56" font-size="20" font-weight="600" fill=""#);
    out.append(t.fg);
    out.append(r#"">"#);
    out.append(count);
    out.append(r#"</text>
<text x=""#);
    out.append(x.as_str());
    out.append(r#"" y="56" font-size="13" font-weight=""#);
    out.append(weight);
    out.append(r#"" fill=""#);
    out.append(value_fill);
    out.append(r#"">"#);
    out.append(value);
    out.append("</text>");
    out
}

pub open spec fn pct_svg(text: Seq<char>, t: Palette) -> Seq<char> {
    r#"<text x="16" y="74" font-size="11" fill=""#@
        + t.muted@
        + r#"">"#@
        + text
        + "</text>"@
}

pub fn pct_el(text: &str, t: &Palette) -> (r: String)
    ensures
        r@ == pct_svg(text@, *t),
{
    let mut out = r#"<text x="16" y="74" font-size="11" fill=""#.to_owned();
    out.append(t.muted);
    out.append(r#"">"#);
    out.append(text);
    out.append("</text>");
    out
}

pub open spec fn footer_svg(text: Seq<char>, weight: Seq<char>, t: Palette) -> Seq<char> {
    r#"<text x="16" y="140" font-size="10.5" font-weight=""#@
        + weight
        + r#"" fill=""#@
        + t.muted@
        + r#"">"#@
        + text
        + "</text>"@
}

pub fn footer_el(text: &str, weight: &str, t: &Palette) -> (r: String)
    ensures
        r@ == footer_svg(text@, weight@, *t),
{
    let mut out = r#"<text x="16" y="140" font-size="10.5" font-weight=""#.to_owned();
    out.append(weight);
    out.append(r#"" fill=""#);
    out.append(t.muted);
    out.append(r#"">"#);
    out.append(text);
    out.append("</text>");
    out
}

/// Degraded states show an honest void where the sparkline will live.
pub open spec fn dashed_svg(t: Palette) -> Seq<char> {
    r#"<line x1="16" y1="112" x2="404" y2="112" stroke=""#@
        + t.muted@
        + r#"" stroke-width="1" stroke-dasharray="3,5" opacity=".6"/>"#@
}

pub fn dashed(t: &Palette) -> (r: String)
    ensures
        r@ == dashed_svg(*t),
{
    let mut out = r#"<line x1="16" y1="112" x2="404" y2="112" stroke=""#.to_owned();
    out.append(t.muted);
    out.append(r#"" stroke-width="1" stroke-dasharray="3,5" opacity=".6"/>"#);
    out
}

/// Texts with a separator between any two.
pub open spec fn join(v: Seq<Seq<char>>, sep: Seq<char>) -> Seq<char>
    decreases v.len(),
{
    if v.len() == 0 {
        Seq::empty()
    } else if v.len() == 1 {
        v[0]
    } else {
        join(v.drop_last(), sep) + sep + v.last()
    }
}

/// A point as `x,y`, moved by so many tenths of a pixel.
pub open spec fn point_text(p: Point, dx: int, dy: int) -> Seq<char> {
    coord_text(p.x + dx) + ","@ + coord_text(p.y + dy)
}

pub open spec fn point_texts(points: Seq<Point>, dx: int, dy: int) -> Seq<Seq<char>> {
    points.map_values(|p: Point| point_text(p, dx, dy))
}

/// The points of the card's sparkline, where the card draws them.
pub open spec fn card_points(points: Seq<Point>) -> Seq<Seq<char>> {
    point_texts(points, 160, 820)
}

/// Points joined by a separator, each moved by so many tenths of a pixel.
pub fn joined_points(points: &Vec<Point>, sep: &str, dx: i64, dy: i64) -> (r: String)
    ensures
        r@ == join(point_texts(points@, dx as int, dy as int), sep@),
{
    let mut out = String::new();
    let mut i: usize = 0;
    let ghost all = point_texts(points@, dx as int, dy as int);
    assert(all.take(0) =~= Seq::<Seq<char>>::empty());
    while i < points.len()
        invariant
            i <= points.len(),
            all == point_texts(points@, dx as int, dy as int),
            out@ == join(all.take(i as int), sep@),
        decreases points.len() - i,
    {
        let p = points[i];
        assert(all[i as int] == point_text(p, dx as int, dy as int));
        let x = coord(p.x as i128 + dx as i128);
        let y = coord(p.y as i128 + dy as i128);
        let text = glue(x.as_str(), ",", y.as_str());
        if i > 0 {
            out.append(sep);
        }
        out.append(text.as_str());
        proof {
            assert(all.take(i + 1).drop_last() =~= all.take(i as int));
            assert(all.take(i + 1).last() == text@);
            if i == 0 {
                assert(all.take(1)[0] == text@);
                assert(out@ =~= text@);
            }
        }
        i += 1;
    }
    assert(all.take(i as int) =~= all);
    out
}

pub open spec fn spark_svg(points: Seq<Point>, t: Palette) -> Seq<char> {
    if points.len() == 0 {
        dashed_svg(t)
    } else {
        r#"<defs><linearGradient id="glow" x1="0" y1="0" x2="0" y2="1">
<stop offset="0" stop-color=""#@
        + t.spark@
        + r#"" stop-opacity=".3"/><stop offset="1" stop-color=""#@
        + t.spark@
        + r#"" stop-opacity="0"/>
</linearGradient></defs>
<path d="M"#@
        + join(card_points(points), " L"@)
        + " L"@
        + coord_text(points.last().x + 160)
        + ",122 L"@
        + coord_text(points[0].x + 160)
        + r#",122 Z" fill="url(#glow)"/>
<polyline points=""#@
        + join(card_points(points), " "@)
        + r#"" fill="none" stroke=""#@
        + t.spark@
        + r#"" stroke-width="1.5"/>"#@
    }
}

pub fn spark_el(points: &Vec<Point>, t: &Palette) -> (r: String)
    ensures
        r@ == spark_svg(points@, *t),
{
    if points.len() == 0 {
        return dashed(t);
    }
    let area = joined_points(points, " L", 160, 820);
    let line = joined_points(points, " ", 160, 820);
    let last = coord(points[points.len() - 1].x as i128 + 160);
    let first = coord(points[0].x as i128 + 160);
    let mut out = r#"<defs><linearGradient id="glow" x1="0" y1="0" x2="0" y2="1">
<stop offset="0" stop-color=""#.to_owned();
    out.append(t.spark);
    out.append(r#"" stop-opacity=".3"/><stop offset="1" stop-color=""#);
    out.append(t.spark);
    out.append(r#"" stop-opacity="0"/>
</linearGradient></defs>
<path d="M"#);
    out.append(area.as_str());
    out.append(" L");
    out.append(last.as_str());
    out.append(",122 L");
    out.append(first.as_str());
    out.append(r#",122 Z" fill="url(#glow)"/>
<polyline points=""#);
    out.append(line.as_str());
    out.append(r#"" fill="none" stroke=""#);
    out.append(t.spark);
    out.append(r#"" stroke-width="1.5"/>"#);
    out
}

/// What a card says in each state. Green is the mark of measured gain; a decline is a plain
/// fact in the foreground, neither celebrated nor dressed as degraded.
pub open spec fn card_words(b: RepoBadge, t: Palette, fonts: Fonts) -> CardWords {
    let repo = escaped(b.full_name@);
    let since = escaped(b.tracked_since@);
    let count = commas_text(b.stars as int);
    let face = fonts.helvetica_bold_20;
    match b.state {
        BadgeState::Measured { velocity, top_percent } => CardWords {
            aria: "afterglow: "@ + repo + " — "@ + count + " stars, "@ + gain_text(velocity as int)
                + ", top "@ + percent_text(top_percent) + "% velocity"@,
            repo,
            name_fill: t.accent@,
            nums: nums_svg(
                count,
                delta_text(velocity as int),
                if velocity < 0 {
                    t.fg@
                } else {
                    t.green@
                },
                "600"@,
                t,
                face,
            ),
            pct: pct_svg(
                "top "@ + percent_text(top_percent) + "% velocity · all tracked repos"@,
                t,
            ),
            spark: spark_svg(b.spark@, t),
            footer: footer_svg("last 30 days · tracked since "@ + since, "400"@, t),
        },
        BadgeState::Proxy { avg } => CardWords {
            aria: "afterglow: "@ + repo + " — "@ + count + " stars, about "@ + commas_text(
                avg as int,
            ) + " per day lifetime average (proxy)"@,
            repo,
            name_fill: t.accent@,
            nums: nums_svg(count, proxy_text(avg as int), t.muted@, "600"@, t, face),
            pct: pct_svg(MEASURING@, t),
            spark: dashed_svg(t),
            footer: footer_svg("tracked since "@ + since, "400"@, t),
        },
        BadgeState::Measuring => CardWords {
            aria: "afterglow: "@ + repo + " — "@ + count
                + " stars, measuring, first reading tomorrow"@,
            repo,
            name_fill: t.accent@,
            nums: nums_svg(count, MEASURING@, t.muted@, "400"@, t, face),
            pct: Seq::empty(),
            spark: dashed_svg(t),
            footer: footer_svg("tracked since "@ + since, "400"@, t),
        },
        BadgeState::Enrolled => CardWords {
            aria: "afterglow: "@ + repo + " — tracking started "@ + since
                + ", history begins now"@,
            repo,
            name_fill: t.accent@,
            nums: nums_svg(count, MEASURING@, t.muted@, "400"@, t, face),
            pct: Seq::empty(),
            spark: dashed_svg(t),
            footer: footer_svg(
                "tracking started "@ + since + " — history begins now"@,
                "600"@,
                t,
            ),
        },
        BadgeState::Paused => CardWords {
            aria: "afterglow: "@ + repo + " — "@ + count + " stars, tracking paused"@,
            repo,
            name_fill: t.accent@,
            nums: nums_svg(count, "tracking paused"@, t.muted@, "400"@, t, face),
            pct: Seq::empty(),
            spark: dashed_svg(t),
            footer: footer_svg("tracked since "@ + since, "400"@, t),
        },
    }
}

/// The card of a tracked repo.
pub open spec fn card_of(b: RepoBadge, theme: Theme, fonts: Fonts) -> Seq<char> {
    card_svg(card_words(b, palette_of(theme), fonts), palette_of(theme))
}

/// The beginning of every sentence about a counted repo.
fn counted(repo: &str, count: &str, rest: &str) -> (r: String)
    ensures
        r@ == "afterglow: "@ + repo@ + " — "@ + count@ + rest@,
{
    let mut out = glue("afterglow: ", repo, " — ");
    out.append(count);
    out.append(rest);
    out
}

fn since_footer(since: &str, t: &Palette) -> (r: String)
    ensures
        r@ == footer_svg("tracked since "@ + since@, "400"@, *t),
{
    let mut text = "tracked since ".to_owned();
    text.append(since);
    footer_el(text.as_str(), "400", t)
}

/// What the card of a tracked repo says.
pub fn card_parts(b: &RepoBadge, t: &Palette, fonts: &Fonts) -> (r: CardParts)
    requires
        b.state.wf(),
    ensures
        r.words() == card_words(*b, *t, *fonts),
{
    let repo = xml_escape(b.full_name.as_str());
    let since = xml_escape(b.tracked_since.as_str());
    let count = commas(b.stars);
    let face = &fonts.helvetica_bold_20;
    match b.state {
        BadgeState::Measured { velocity, top_percent } => {
            let top = percent(top_percent);
            let mut aria = counted(repo.as_str(), count.as_str(), " stars, ");
            aria.append(gain_phrase(velocity).as_str());
            aria.append(", top ");
            aria.append(top.as_str());
            aria.append("% velocity");
            let fill = if velocity < 0 {
                t.fg
            } else {
                t.green
            };
            let mut footer = "last 30 days · tracked since ".to_owned();
            footer.append(since.as_str());
            CardParts {
                aria,
                repo,
                name_fill: t.accent,
                nums: nums_row(count.as_str(), delta(velocity).as_str(), fill, "600", t, face),
                pct: pct_el(
                    glue("top ", top.as_str(), "% velocity · all tracked repos").as_str(),
                    t,
                ),
                spark: spark_el(&b.spark, t),
                footer: footer_el(footer.as_str(), "400", t),
            }
        },
        BadgeState::Proxy { avg } => {
            let mut aria = counted(repo.as_str(), count.as_str(), " stars, about ");
            aria.append(commas(avg).as_str());
            aria.append(" per day lifetime average (proxy)");
            CardParts {
                aria,
                repo,
                name_fill: t.accent,
                nums: nums_row(count.as_str(), proxy_avg(avg).as_str(), t.muted, "600", t, face),
                pct: pct_el(MEASURING, t),
                spark: dashed(t),
                footer: since_footer(since.as_str(), t),
            }
        },
        BadgeState::Measuring => CardParts {
            aria: counted(
                repo.as_str(),
                count.as_str(),
                " stars, measuring, first reading tomorrow",
            ),
            repo,
            name_fill: t.accent,
            nums: nums_row(count.as_str(), MEASURING, t.muted, "400", t, face),
            pct: String::new(),
            spark: dashed(t),
            footer: since_footer(since.as_str(), t),
        },
        BadgeState::Enrolled => {
            let mut aria = glue("afterglow: ", repo.as_str(), " — tracking started ");
            aria.append(since.as_str());
            aria.append(", history begins now");
            CardParts {
                aria,
                repo,
                name_fill: t.accent,
                nums: nums_row(count.as_str(), MEASURING, t.muted, "400", t, face),
                pct: String::new(),
                // No amber on day one: glow is earned.
                spark: dashed(t),
                footer: footer_el(
                    glue("tracking started ", since.as_str(), " — history begins now").as_str(),
                    "600",
                    t,
                ),
            }
        },
        BadgeState::Paused => CardParts {
            aria: counted(repo.as_str(), count.as_str(), " stars, tracking paused"),
            repo,
            name_fill: t.accent,
            nums: nums_row(count.as_str(), "tracking paused", t.muted, "400", t, face),
            pct: String::new(),
            spark: dashed(t),
            footer: since_footer(since.as_str(), t),
        },
    }
}

pub fn card(b: &RepoBadge, theme: Theme, fonts: &Fonts) -> (r: String)
    requires
        b.state.wf(),
    ensures
        r@ == card_of(*b, theme, *fonts),
{
    let t = theme.palette();
    let parts = card_parts(b, &t, fonts);
    render_card(&parts, &t)
}

/// What the card of an untracked name says. The name is muted, not accented: there is
/// nothing to link to.
pub open spec fn not_tracked_card_words(full_name: Seq<char>, t: Palette) -> CardWords {
    CardWords {
        aria: not_tracked_text(full_name),
        repo: escaped(full_name),
        name_fill: t.muted@,
        nums: not_tracked_svg(t),
        pct: Seq::empty(),
        spark: dashed_svg(t),
        footer: Seq::empty(),
    }
}

pub open spec fn not_tracked_svg(t: Palette) -> Seq<char> {
    r#"<text x="16" y="56" font-size="13" font-weight="400" fill=""#@
        + t.muted@
        + r#"">"#@
        + NOT_TRACKED@
        + "</text>"@
}

fn not_tracked_el(t: &Palette) -> (r: String)
    ensures
        r@ == not_tracked_svg(*t),
{
    let mut out = r#"<text x="16" y="56" font-size="13" font-weight="400" fill=""#.to_owned();
    out.append(t.muted);
    out.append(r#"">"#);
    out.append(NOT_TRACKED);
    out.append("</text>");
    out
}

/// The card of a name that is not tracked.
pub open spec fn not_tracked_card_of(full_name: Seq<char>, theme: Theme) -> Seq<char> {
    card_svg(not_tracked_card_words(full_name, palette_of(theme)), palette_of(theme))
}

/// What the card of an untracked name says.
pub fn not_tracked_parts(full_name: &str, t: &Palette) -> (r: CardParts)
    ensures
        r.words() == not_tracked_card_words(full_name@, *t),
{
    CardParts {
        aria: not_tracked_sentence(full_name),
        repo: xml_escape(full_name),
        name_fill: t.muted,
        nums: not_tracked_el(t),
        pct: String::new(),
        spark: dashed(t),
        footer: String::new(),
    }
}

pub fn not_tracked_card(full_name: &str, theme: Theme) -> (r: String)
    ensures
        r@ == not_tracked_card_of(full_name@, theme),
{
    let t = theme.palette();
    render_card(&not_tracked_parts(full_name, &t), &t)
}

// ---------------------------------------------------------------- fidelity

/// Amber renders on measured data alone: every other state of a pill is grey.
pub proof fn law_only_measured_pills_are_amber(b: RepoBadge)
    ensures
        b.state is Measured ==> pill_words(b).bg == AMBER@,
        !(b.state is Measured) ==> pill_words(b).bg == PROXY_GREY@,
        AMBER@ != PROXY_GREY@,
{
    reveal_strlit("#d4a72c");
    reveal_strlit("#9f9f9f");
    assert(AMBER@[1] != PROXY_GREY@[1]);
}

/// Only a measured card draws a sparkline. Every other state shows the void, whatever points
/// the badge carries: two such cards that differ in their points alone are the same card.
pub proof fn law_only_measured_cards_draw_a_line(
    b: RepoBadge,
    other: RepoBadge,
    theme: Theme,
    fonts: Fonts,
)
    requires
        b == (RepoBadge { spark: b.spark, ..other }),
    ensures
        b.state is Measured ==> card_words(b, palette_of(theme), fonts).spark == spark_svg(
            b.spark@,
            palette_of(theme),
        ),
        !(b.state is Measured) ==> card_words(b, palette_of(theme), fonts).spark == dashed_svg(
            palette_of(theme),
        ),
        !(b.state is Measured) ==> card_of(b, theme, fonts) == card_of(other, theme, fonts),
{
}

} // verus!
