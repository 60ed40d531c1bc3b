//! Text as sequences of characters: decimal numbers, trimming, splitting and order.

use vstd::prelude::*;

verus! {

/// `String::push` puts its character behind what the string held.
pub assume_specification[ String::push ](s: &mut String, c: char)
    ensures
        final(s)@ == old(s)@.push(c),
;

// ---------------------------------------------------------------- characters

/// The ASCII digits.
pub open spec fn is_digit(c: char) -> bool {
    '0' <= c <= '9'
}

/// The ASCII letters and digits.
pub open spec fn is_alphanumeric(c: char) -> bool {
    is_digit(c) || 'a' <= c <= 'z' || 'A' <= c <= 'Z'
}

/// Unicode's `White_Space` property, which is what `str::trim` trims.
pub open spec fn is_space(c: char) -> bool {
    ||| '\u{9}' <= c <= '\u{d}'
    ||| c == ' '
    ||| c == '\u{85}'
    ||| c == '\u{a0}'
    ||| c == '\u{1680}'
    ||| '\u{2000}' <= c <= '\u{200a}'
    ||| c == '\u{2028}'
    ||| c == '\u{2029}'
    ||| c == '\u{202f}'
    ||| c == '\u{205f}'
    ||| c == '\u{3000}'
}

/// How many bytes a character takes in UTF-8.
pub open spec fn utf8_len(c: char) -> nat {
    if '\u{80}' > c {
        1
    } else if '\u{800}' > c {
        2
    } else if '\u{10000}' > c {
        3
    } else {
        4
    }
}

/// The characters that a trim takes off.
pub enum CharClass {
    Space,
    LineEnd,
    Only(char),
}

impl CharClass {
    pub open spec fn holds(self, c: char) -> bool {
        match self {
            CharClass::Space => is_space(c),
            CharClass::LineEnd => c == '\n' || c == '\r',
            CharClass::Only(x) => c == x,
        }
    }

    pub fn has(&self, c: char) -> (r: bool)
        ensures
            r == self.holds(c),
    {
        match self {
            CharClass::Space => space(c),
            CharClass::LineEnd => c == '\n' || c == '\r',
            CharClass::Only(x) => c == *x,
        }
    }
}

pub fn ascii_digit(c: char) -> (r: bool)
    ensures
        r == is_digit(c),
{
    '0' <= c && c <= '9'
}

pub fn alphanumeric(c: char) -> (r: bool)
    ensures
        r == is_alphanumeric(c),
{
    ascii_digit(c) || ('a' <= c && c <= 'z') || ('A' <= c && c <= 'Z')
}

fn space(c: char) -> (r: bool)
    ensures
        r == is_space(c),
{
    ('\u{9}' <= c && c <= '\u{d}') || c == ' ' || c == '\u{85}' || c == '\u{a0}' || c == '\u{1680}'
        || ('\u{2000}' <= c && c <= '\u{200a}') || c == '\u{2028}' || c == '\u{2029}' || c
        == '\u{202f}' || c == '\u{205f}' || c == '\u{3000}'
}

fn char_bytes(c: char) -> (r: usize)
    ensures
        r == utf8_len(c),
{
    if '\u{80}' > c {
        1
    } else if '\u{800}' > c {
        2
    } else if '\u{10000}' > c {
        3
    } else {
        4
    }
}

// ---------------------------------------------------------------- strings and characters

/// The texts behind a list of string slices.
pub open spec fn texts(v: Seq<&str>) -> Seq<Seq<char>> {
    v.map_values(|s: &str| s@)
}

/// The text behind an optional string.
pub open spec fn opt_text(s: Option<String>) -> Option<Seq<char>> {
    match s {
        Some(t) => Some(t@),
        None => None,
    }
}

/// The text behind an optional string slice.
pub open spec fn opt_slice(s: Option<&str>) -> Option<Seq<char>> {
    match s {
        Some(t) => Some(t@),
        None => None,
    }
}

pub fn to_chars(s: &str) -> (r: Vec<char>)
    ensures
        r@ == s@,
{
    let mut out: Vec<char> = Vec::new();
    for c in it: s.chars()
        invariant
            out@ == it.seq().take(it.index() as int),
    {
        out.push(c);
    }
    out
}

/// Whether two texts are the same characters.
pub fn same(a: &str, b: &str) -> (r: bool)
    ensures
        r == (a@ == b@),
{
    let x = to_chars(a);
    let y = to_chars(b);
    if x.len() != y.len() {
        return false;
    }
    let mut i: usize = 0;
    while i < x.len()
        invariant
            i <= x.len(),
            x.len() == y.len(),
            x@ == a@,
            y@ == b@,
            forall|j: int| 0 <= j < i ==> x@[j] == y@[j],
        decreases x.len() - i,
    {
        if x[i] != y[i] {
            return false;
        }
        i += 1;
    }
    assert(a@ =~= b@);
    true
}

/// Whether an optional text is there and is the one asked for.
pub fn is_text(a: Option<&str>, b: &str) -> (r: bool)
    ensures
        r == (opt_slice(a) == Some(b@)),
{
    match a {
        Some(s) => same(s, b),
        None => false,
    }
}

/// An optional text that is lent.
pub fn lent_text(s: &Option<String>) -> (r: Option<&str>)
    ensures
        opt_slice(r) == opt_text(*s),
{
    match s {
        Some(text) => Some(text.as_str()),
        None => None,
    }
}

/// An optional text once more.
pub fn clone_text(s: &Option<String>) -> (r: Option<String>)
    ensures
        opt_text(r) == opt_text(*s),
        r is Some == s is Some,
{
    match s {
        Some(t) => Some(t.clone()),
        None => None,
    }
}

// ---------------------------------------------------------------- decimal numbers

/// The character that stands for a digit below ten.
pub open spec fn digit(d: int) -> char {
    (48 + d) as char
}

/// A natural number in decimal, without leading zeros.
pub open spec fn decimal(n: nat) -> Seq<char>
    decreases n,
{
    if n < 10 {
        seq![digit(n as int)]
    } else {
        decimal(n / 10).push(digit((n % 10) as int))
    }
}

/// A number has a digit, and nothing but digits.
pub proof fn lemma_decimal_digits(n: nat)
    ensures
        decimal(n).len() >= 1,
        forall|i: int| 0 <= i < decimal(n).len() ==> '0' <= #[trigger] decimal(n)[i] <= '9',
    decreases n,
{
    if n >= 10 {
        let head = decimal(n / 10);
        lemma_decimal_digits(n / 10);
        assert forall|i: int| 0 <= i < decimal(n).len() implies '0' <= #[trigger] decimal(n)[i]
            <= '9' by {
            if i < head.len() {
                assert(decimal(n)[i] == head[i]);
            }
        }
    }
}

/// An integer in decimal, a minus sign before a negative one.
pub open spec fn integer(n: int) -> Seq<char> {
    if n < 0 {
        seq!['-'] + decimal((-n) as nat)
    } else {
        decimal(n as nat)
    }
}

/// So many zeros.
pub open spec fn zeros(n: int) -> Seq<char> {
    Seq::new((if n < 0 { 0 } else { n }) as nat, |i: int| '0')
}

/// An integer in decimal, filled up with zeros behind the sign to a least width.
pub open spec fn padded(n: int, width: int) -> Seq<char> {
    if n < 0 {
        seq!['-'] + zeros(width - 1 - decimal((-n) as nat).len()) + decimal((-n) as nat)
    } else {
        zeros(width - decimal(n as nat).len()) + decimal(n as nat)
    }
}

pub fn push_decimal(out: &mut String, n: u128)
    ensures
        final(out)@ == old(out)@ + decimal(n as nat),
    decreases n,
{
    if n >= 10 {
        push_decimal(out, n / 10);
    }
    let d: u8 = (n % 10) as u8;
    out.push((48 + d) as char);
}

/// The distance of a number from zero.
pub fn magnitude(n: i64) -> (r: u64)
    ensures
        r == (if n < 0 { -n } else { n as int }),
{
    if n < 0 {
        (-(n + 1)) as u64 + 1
    } else {
        n as u64
    }
}

pub fn push_integer(out: &mut String, n: i128)
    ensures
        final(out)@ == old(out)@ + integer(n as int),
{
    if n < 0 {
        out.push('-');
        push_decimal(out, (-(n + 1)) as u128 + 1);
        assert(out@ =~= old(out)@ + integer(n as int));
    } else {
        push_decimal(out, n as u128);
    }
}

/// How many digits a number takes.
fn decimal_len(n: u64) -> (r: usize)
    ensures
        r == decimal(n as nat).len(),
        r <= 20,
{
    proof {
        lemma_decimal_len(n as nat, 20);
    }
    let mut rest: u64 = n;
    let mut len: usize = 1;
    while rest >= 10
        invariant
            len + decimal(rest as nat).len() == 1 + decimal(n as nat).len(),
            decimal(n as nat).len() <= 20,
            decimal(rest as nat).len() >= 1,
        decreases rest,
    {
        rest = rest / 10;
        proof {
            lemma_decimal_len(rest as nat, 20);
        }
        len += 1;
    }
    len
}

/// Ten to the power of `k`.
pub open spec fn pow10(k: nat) -> int
    decreases k,
{
    if k == 0 {
        1
    } else {
        10 * pow10((k - 1) as nat)
    }
}

/// A number below ten to the `k` has at most `k` digits, and always at least one.
pub proof fn lemma_decimal_width(n: nat, k: nat)
    requires
        k >= 1,
        n < pow10(k),
    ensures
        1 <= decimal(n).len() <= k,
    decreases k,
{
    if n >= 10 {
        assert(pow10(k) == 10 * pow10((k - 1) as nat));
        if k == 1 {
            assert(pow10(0) == 1);
        } else {
            lemma_decimal_width(n / 10, (k - 1) as nat);
        }
    }
}

proof fn lemma_decimal_len(n: nat, k: nat)
    requires
        n <= u64::MAX,
        k == 20,
    ensures
        1 <= decimal(n).len() <= k,
{
    assert(pow10(20) == 100000000000000000000) by {
        reveal_with_fuel(pow10, 21);
    }
    lemma_decimal_width(n, k);
}

pub fn push_padded(out: &mut String, n: i64, width: usize)
    ensures
        final(out)@ == old(out)@ + padded(n as int, width as int),
{
    let m = magnitude(n);
    let len = decimal_len(m);
    let mut room: usize = width;
    if n < 0 {
        out.push('-');
        room = if width == 0 {
            0
        } else {
            width - 1
        };
    }
    let ghost start = out@;
    let fill: usize = if room > len {
        room - len
    } else {
        0
    };
    let mut i: usize = 0;
    while i < fill
        invariant
            i <= fill,
            out@ == start + zeros(i as int),
        decreases fill - i,
    {
        out.push('0');
        i += 1;
        assert(out@ =~= start + zeros(i as int));
    }
    push_decimal(out, m as u128);
    assert(out@ =~= old(out)@ + padded(n as int, width as int));
}

pub fn integer_text(n: i128) -> (r: String)
    ensures
        r@ == integer(n as int),
{
    let mut out = String::new();
    push_integer(&mut out, n);
    assert(out@ =~= integer(n as int));
    out
}

// ---------------------------------------------------------------- reading numbers

/// The value that a run of digits writes.
pub open spec fn digits_value(s: Seq<char>) -> int
    decreases s.len(),
{
    if s.len() == 0 {
        0
    } else {
        10 * digits_value(s.drop_last()) + (s.last() as int - 48)
    }
}

/// At least one character, and nothing but ASCII digits.
pub open spec fn all_digits(s: Seq<char>) -> bool {
    s.len() > 0 && forall|i: int| 0 <= i < s.len() ==> is_digit(#[trigger] s[i])
}

/// What stands behind an optional sign.
pub open spec fn unsigned_part(s: Seq<char>) -> Seq<char> {
    if s.len() > 0 && (s[0] == '-' || s[0] == '+') {
        s.skip(1)
    } else {
        s
    }
}

/// The 64-bit integer that a text writes in decimal, with an optional sign.
pub open spec fn integer_value(s: Seq<char>) -> Option<int> {
    let body = unsigned_part(s);
    let value = if s.len() > 0 && s[0] == '-' {
        -digits_value(body)
    } else {
        digits_value(body)
    };
    if all_digits(body) && i64::MIN <= value <= i64::MAX {
        Some(value)
    } else {
        None
    }
}

proof fn lemma_digits_value_bounds(s: Seq<char>, k: int)
    requires
        forall|i: int| 0 <= i < s.len() ==> is_digit(#[trigger] s[i]),
        0 <= k <= s.len(),
    ensures
        0 <= digits_value(s.take(k)) <= digits_value(s),
    decreases s.len(),
{
    if s.len() > 0 {
        assert(is_digit(s.last()));
        let t = s.drop_last();
        assert forall|i: int| 0 <= i < t.len() implies is_digit(#[trigger] t[i]) by {
            assert(t[i] == s[i]);
        }
        if k == s.len() {
            assert(s.take(k) =~= s);
            lemma_digits_value_bounds(t, 0);
        } else {
            assert(s.take(k) =~= t.take(k));
            lemma_digits_value_bounds(t, k);
        }
    } else {
        assert(s.take(k) =~= s);
    }
}

/// Reads a signed 64-bit integer as `str::parse` does.
pub fn parse_i64(s: &str) -> (r: Option<i64>)
    ensures
        match r {
            Some(n) => integer_value(s@) == Some(n as int),
            None => integer_value(s@) is None,
        },
{
    let v = to_chars(s);
    let n = v.len();
    let negative = n > 0 && v[0] == '-';
    let start: usize = if n > 0 && (v[0] == '-' || v[0] == '+') {
        1
    } else {
        0
    };
    let ghost body = unsigned_part(s@);
    assert(start == 1 ==> body == s@.skip(1));
    assert(start == 0 ==> body == s@);
    assert(forall|j: int| 0 <= j < body.len() ==> #[trigger] body[j] == s@[j + start]);
    if start == n {
        return None;
    }
    let mut value: i128 = 0;
    let mut i: usize = start;
    while i < n
        invariant
            start <= i <= n,
            n == v.len(),
            v@ == s@,
            body.len() == n - start,
            forall|j: int| 0 <= j < body.len() ==> #[trigger] body[j] == s@[j + start],
            forall|j: int| 0 <= j < i - start ==> is_digit(#[trigger] body[j]),
            value == digits_value(body.take(i - start)),
            0 <= value <= 0x8000_0000_0000_0000,
            body == unsigned_part(s@),
            negative == (s@.len() > 0 && s@[0] == '-'),
        decreases n - i,
    {
        let c = v[i];
        assert(body[i - start] == c);
        if !ascii_digit(c) {
            return None;
        }
        value = value * 10 + (c as u32 as i128 - 48);
        assert(body.take(i + 1 - start).drop_last() =~= body.take(i - start));
        assert(body.take(i + 1 - start).last() == c);
        if value > 0x8000_0000_0000_0000 {
            proof {
                if all_digits(body) {
                    lemma_digits_value_bounds(body, i + 1 - start);
                }
            }
            return None;
        }
        i += 1;
    }
    assert(body.take(n - start) =~= body);
    if negative {
        Some((-value) as i64)
    } else if value == 0x8000_0000_0000_0000 {
        None
    } else {
        Some(value as i64)
    }
}

// ---------------------------------------------------------------- trimming

/// What is left when the leading characters of a class are taken off.
pub open spec fn trim_left(s: Seq<char>, class: CharClass) -> Seq<char>
    decreases s.len(),
{
    if s.len() > 0 && class.holds(s[0]) {
        trim_left(s.skip(1), class)
    } else {
        s
    }
}

/// What is left when the trailing characters of a class are taken off.
pub open spec fn trim_right(s: Seq<char>, class: CharClass) -> Seq<char>
    decreases s.len(),
{
    if s.len() > 0 && class.holds(s.last()) {
        trim_right(s.drop_last(), class)
    } else {
        s
    }
}

/// What is left when both ends are trimmed.
pub open spec fn trim(s: Seq<char>, class: CharClass) -> Seq<char> {
    trim_right(trim_left(s, class), class)
}

/// The text without the white space around it.
pub open spec fn trimmed(s: Seq<char>) -> Seq<char> {
    trim(s, CharClass::Space)
}

pub fn trim_start_of<'a>(s: &'a str, class: &CharClass) -> (r: &'a str)
    ensures
        r@ == trim_left(s@, *class),
{
    let v = to_chars(s);
    let mut i: usize = 0;
    assert(s@.skip(0) =~= s@);
    while i < v.len() && class.has(v[i])
        invariant
            i <= v.len(),
            v@ == s@,
            trim_left(s@, *class) == trim_left(s@.skip(i as int), *class),
        decreases v.len() - i,
    {
        assert(s@.skip(i as int).skip(1) =~= s@.skip(i + 1));
        i += 1;
    }
    assert(s@.subrange(i as int, v.len() as int) =~= s@.skip(i as int));
    s.substring_char(i, v.len())
}

pub fn trim_end_of<'a>(s: &'a str, class: &CharClass) -> (r: &'a str)
    ensures
        r@ == trim_right(s@, *class),
{
    let v = to_chars(s);
    let mut i: usize = v.len();
    assert(s@.take(i as int) =~= s@);
    while i > 0 && class.has(v[i - 1])
        invariant
            i <= v.len(),
            v@ == s@,
            trim_right(s@, *class) == trim_right(s@.take(i as int), *class),
        decreases i,
    {
        assert(s@.take(i as int).drop_last() =~= s@.take(i - 1));
        i -= 1;
    }
    assert(s@.subrange(0, i as int) =~= s@.take(i as int));
    s.substring_char(0, i)
}

pub fn trim_of<'a>(s: &'a str, class: &CharClass) -> (r: &'a str)
    ensures
        r@ == trim(s@, *class),
{
    trim_end_of(trim_start_of(s, class), class)
}

/// Trims as `str::trim` does.
pub fn trim_space<'a>(s: &'a str) -> (r: &'a str)
    ensures
        r@ == trimmed(s@),
{
    trim_of(s, &CharClass::Space)
}

// ---------------------------------------------------------------- splitting

/// The pieces between the separators, of which there is always one more.
pub open spec fn split(s: Seq<char>, sep: char) -> Seq<Seq<char>>
    decreases s.len(),
{
    if s.len() == 0 {
        seq![Seq::empty()]
    } else {
        let pieces = split(s.drop_last(), sep);
        if s.last() == sep {
            pieces.push(Seq::empty())
        } else {
            pieces.drop_last().push(pieces.last().push(s.last()))
        }
    }
}

/// There is always a piece.
pub proof fn lemma_split_nonempty(s: Seq<char>, sep: char)
    ensures
        split(s, sep).len() >= 1,
    decreases s.len(),
{
    if s.len() > 0 {
        lemma_split_nonempty(s.drop_last(), sep);
    }
}

/// A text without the separator is one piece.
pub proof fn lemma_split_whole(s: Seq<char>, sep: char)
    requires
        forall|i: int| 0 <= i < s.len() ==> s[i] != sep,
    ensures
        split(s, sep) == seq![s],
    decreases s.len(),
{
    if s.len() > 0 {
        lemma_split_whole(s.drop_last(), sep);
        assert(s.drop_last().push(s.last()) =~= s);
        assert(split(s, sep) =~= seq![s]);
    } else {
        assert(s =~= Seq::<char>::empty());
    }
}

/// The first piece ends at the first separator, and the rest is split on its own.
pub proof fn lemma_split_first(a: Seq<char>, sep: char, b: Seq<char>)
    requires
        forall|i: int| 0 <= i < a.len() ==> a[i] != sep,
    ensures
        split(a + seq![sep] + b, sep) == seq![a] + split(b, sep),
    decreases b.len(),
{
    let s = a + seq![sep] + b;
    lemma_split_nonempty(b, sep);
    if b.len() == 0 {
        lemma_split_whole(a, sep);
        assert(s.drop_last() =~= a);
        assert(s.last() == sep);
        assert(split(s, sep) =~= seq![a] + split(b, sep));
    } else {
        let t = b.drop_last();
        assert(s.drop_last() =~= a + seq![sep] + t);
        assert(s.last() == b.last());
        lemma_split_first(a, sep, t);
        lemma_split_nonempty(t, sep);
        assert(split(s, sep) =~= seq![a] + split(b, sep));
    }
}

/// A trim from the right stops at a character that it does not take off.
pub proof fn lemma_trim_right_stops(a: Seq<char>, b: Seq<char>, class: CharClass)
    requires
        a.len() > 0,
        !class.holds(a.last()),
    ensures
        trim_right(a + b, class) == a + trim_right(b, class),
        trim_right(b, class).len() > 0 ==> trim_right(b, class)[0] == b[0],
    decreases b.len(),
{
    if b.len() == 0 {
        assert(a + b =~= a);
        assert(a + trim_right(b, class) =~= a);
    } else {
        assert((a + b).last() == b.last());
        if class.holds(b.last()) {
            assert((a + b).drop_last() =~= a + b.drop_last());
            lemma_trim_right_stops(a, b.drop_last(), class);
        }
    }
}

pub fn split_on<'a>(s: &'a str, sep: char) -> (r: Vec<&'a str>)
    ensures
        texts(r@) == split(s@, sep),
        r.len() >= 1,
{
    let v = to_chars(s);
    let mut out: Vec<&'a str> = Vec::new();
    let mut start: usize = 0;
    let mut i: usize = 0;
    assert(s@.take(0) =~= Seq::<char>::empty());
    assert(s@.subrange(0, 0) =~= Seq::<char>::empty());
    assert(split(s@.take(0), sep) =~= texts(out@).push(s@.subrange(0, 0)));
    while i < v.len()
        invariant
            start <= i <= v.len(),
            v@ == s@,
            split(s@.take(i as int), sep) == texts(out@).push(s@.subrange(start as int, i as int)),
        decreases v.len() - i,
    {
        let ghost before = texts(out@).push(s@.subrange(start as int, i as int));
        assert(s@.take(i + 1).drop_last() =~= s@.take(i as int));
        assert(s@.take(i + 1).last() == v@[i as int]);
        if v[i] == sep {
            let ghost was = out@;
            let piece = s.substring_char(start, i);
            out.push(piece);
            start = i + 1;
            assert(texts(out@) =~= texts(was).push(piece@));
            assert(s@.subrange(start as int, i + 1) =~= Seq::<char>::empty());
        } else {
            assert(before.drop_last() =~= texts(out@));
            assert(before.last().push(v@[i as int]) =~= s@.subrange(start as int, i + 1));
        }
        i += 1;
    }
    let ghost was = out@;
    let piece = s.substring_char(start, v.len());
    out.push(piece);
    assert(texts(out@) =~= texts(was).push(piece@));
    assert(s@.take(i as int) =~= s@);
    out
}

/// How many characters stand before the first separator.
pub open spec fn run(s: Seq<char>, sep: char) -> nat
    decreases s.len(),
{
    if s.len() == 0 || s[0] == sep {
        0
    } else {
        1 + run(s.skip(1), sep)
    }
}

/// The text before the first separator, or all of it.
pub open spec fn before(s: Seq<char>, sep: char) -> Seq<char> {
    s.take(run(s, sep) as int)
}

/// The text behind the first separator.
pub open spec fn after(s: Seq<char>, sep: char) -> Seq<char> {
    s.skip(run(s, sep) as int + 1)
}

/// The run ends at the first separator, or at the end where there is none.
pub proof fn lemma_run(s: Seq<char>, sep: char)
    ensures
        run(s, sep) <= s.len(),
        forall|i: int| 0 <= i < run(s, sep) ==> s[i] != sep,
        run(s, sep) < s.len() ==> s[run(s, sep) as int] == sep,
        s.contains(sep) <==> run(s, sep) < s.len(),
    decreases s.len(),
{
    if s.len() > 0 && s[0] != sep {
        let t = s.skip(1);
        lemma_run(t, sep);
        assert forall|i: int| 0 <= i < run(s, sep) implies s[i] != sep by {
            if i > 0 {
                assert(s[i] == t[i - 1]);
            }
        }
        if s.contains(sep) {
            let k = choose|k: int| 0 <= k < s.len() && s[k] == sep;
            assert(t[k - 1] == sep);
        }
    } else if s.len() > 0 {
        assert(s[0] == sep);
    }
}

pub fn split_once_at<'a>(s: &'a str, sep: char) -> (r: Option<(&'a str, &'a str)>)
    ensures
        match r {
            Some((a, b)) => s@.contains(sep) && a@ == before(s@, sep) && b@ == after(s@, sep),
            None => !s@.contains(sep),
        },
{
    let v = to_chars(s);
    let mut i: usize = 0;
    assert(s@.skip(0) =~= s@);
    while i < v.len() && v[i] != sep
        invariant
            i <= v.len(),
            v@ == s@,
            run(s@, sep) == i + run(s@.skip(i as int), sep),
        decreases v.len() - i,
    {
        assert(s@.skip(i as int).skip(1) =~= s@.skip(i + 1));
        i += 1;
    }
    proof {
        lemma_run(s@, sep);
        assert(run(s@, sep) == i);
    }
    if i == v.len() {
        None
    } else {
        assert(s@.subrange(0, i as int) =~= s@.take(i as int));
        assert(s@.subrange(i + 1, v.len() as int) =~= s@.skip(i + 1));
        Some((s.substring_char(0, i), s.substring_char(i + 1, v.len())))
    }
}

/// The lines of a text as `str::lines` gives them: split at line feeds, a carriage
/// return before one taken off, and no line behind the last line feed.
pub open spec fn lines(s: Seq<char>) -> Seq<Seq<char>> {
    let pieces = split(s, '\n');
    let full = pieces.drop_last().map_values(|l: Seq<char>| without_return(l));
    if pieces.last().len() == 0 {
        full
    } else {
        full.push(pieces.last())
    }
}

/// A line without the carriage return that ends it.
pub open spec fn without_return(l: Seq<char>) -> Seq<char> {
    if l.len() > 0 && l.last() == '\r' {
        l.drop_last()
    } else {
        l
    }
}

pub fn lines_of<'a>(s: &'a str) -> (r: Vec<&'a str>)
    ensures
        texts(r@) == lines(s@),
{
    let pieces = split_on(s, '\n');
    let ghost all = split(s@, '\n');
    let last = pieces.len() - 1;
    let mut out: Vec<&'a str> = Vec::new();
    let mut i: usize = 0;
    while i < last
        invariant
            i <= last,
            last == pieces.len() - 1,
            texts(pieces@) == all,
            out.len() == i,
            forall|j: int| 0 <= j < i ==> #[trigger] texts(out@)[j] == without_return(all[j]),
        decreases last - i,
    {
        let piece = pieces[i];
        assert(all[i as int] == piece@);
        let line = strip_return(piece);
        let ghost was = out@;
        out.push(line);
        assert forall|j: int| 0 <= j < i + 1 implies #[trigger] texts(out@)[j] == without_return(
            all[j],
        ) by {
            if j < i {
                assert(texts(out@)[j] == texts(was)[j]);
            }
        }
        i += 1;
    }
    let ghost full = all.drop_last().map_values(|l: Seq<char>| without_return(l));
    assert(texts(out@) =~= full);
    let tail = pieces[last];
    assert(all.last() == tail@);
    if !tail.is_empty() {
        let ghost was = out@;
        out.push(tail);
        assert(texts(out@) =~= texts(was).push(tail@));
    }
    out
}

fn strip_return<'a>(l: &'a str) -> (r: &'a str)
    ensures
        r@ == without_return(l@),
{
    let v = to_chars(l);
    let n = v.len();
    if n > 0 && v[n - 1] == '\r' {
        assert(l@.subrange(0, n - 1) =~= l@.drop_last());
        l.substring_char(0, n - 1)
    } else {
        l
    }
}

// ---------------------------------------------------------------- prefixes and suffixes

/// Whether a text begins with another.
pub open spec fn starts_with(s: Seq<char>, prefix: Seq<char>) -> bool {
    prefix.len() <= s.len() && s.take(prefix.len() as int) == prefix
}

/// A text without one character.
pub open spec fn without(s: Seq<char>, c: char) -> Seq<char>
    decreases s.len(),
{
    if s.len() == 0 {
        s
    } else if s.last() == c {
        without(s.drop_last(), c)
    } else {
        without(s.drop_last(), c).push(s.last())
    }
}

/// Whether a text ends with another.
pub open spec fn ends_with(s: Seq<char>, suffix: Seq<char>) -> bool {
    suffix.len() <= s.len() && s.skip(s.len() - suffix.len()) == suffix
}

/// The text without a prefix that it may begin with.
pub open spec fn drop_prefix(s: Seq<char>, prefix: Seq<char>) -> Seq<char> {
    if starts_with(s, prefix) {
        s.skip(prefix.len() as int)
    } else {
        s
    }
}

/// The text without a suffix that it may end with.
pub open spec fn drop_suffix(s: Seq<char>, suffix: Seq<char>) -> Seq<char> {
    if ends_with(s, suffix) {
        s.take(s.len() - suffix.len())
    } else {
        s
    }
}

pub fn strip_prefix_of<'a>(s: &'a str, prefix: &str) -> (r: Option<&'a str>)
    ensures
        match r {
            Some(t) => starts_with(s@, prefix@) && t@ == s@.skip(prefix@.len() as int),
            None => !starts_with(s@, prefix@),
        },
{
    let n = s.unicode_len();
    let k = prefix.unicode_len();
    if k > n {
        return None;
    }
    assert(s@.subrange(0, k as int) =~= s@.take(k as int));
    if same(s.substring_char(0, k), prefix) {
        assert(s@.subrange(k as int, n as int) =~= s@.skip(k as int));
        Some(s.substring_char(k, n))
    } else {
        None
    }
}

pub fn strip_suffix_of<'a>(s: &'a str, suffix: &str) -> (r: Option<&'a str>)
    ensures
        match r {
            Some(t) => ends_with(s@, suffix@) && t@ == s@.take(s@.len() - suffix@.len()),
            None => !ends_with(s@, suffix@),
        },
{
    let n = s.unicode_len();
    let k = suffix.unicode_len();
    if k > n {
        return None;
    }
    assert(s@.subrange(n - k, n as int) =~= s@.skip(n - k));
    if same(s.substring_char(n - k, n), suffix) {
        assert(s@.subrange(0, n - k) =~= s@.take(n - k));
        Some(s.substring_char(0, n - k))
    } else {
        None
    }
}

/// The characters that fill the first `n` bytes of a text exactly, if some do.
pub open spec fn byte_prefix(s: Seq<char>, n: int) -> Option<Seq<char>>
    decreases s.len(),
{
    if n == 0 {
        Some(Seq::empty())
    } else if s.len() == 0 || n < utf8_len(s[0]) {
        None
    } else {
        match byte_prefix(s.skip(1), n - utf8_len(s[0])) {
            Some(rest) => Some(seq![s[0]] + rest),
            None => None,
        }
    }
}

pub proof fn lemma_byte_prefix_is_prefix(s: Seq<char>, n: int)
    ensures
        byte_prefix(s, n) matches Some(p) ==> starts_with(s, p),
    decreases s.len(),
{
    if n != 0 && s.len() > 0 && n >= utf8_len(s[0]) {
        lemma_byte_prefix_is_prefix(s.skip(1), n - utf8_len(s[0]));
        if let Some(rest) = byte_prefix(s.skip(1), n - utf8_len(s[0])) {
            let p = seq![s[0]] + rest;
            assert(s.take(p.len() as int) =~= p) by {
                assert forall|i: int| 0 <= i < p.len() implies s[i] == p[i] by {
                    if i > 0 {
                        assert(s.skip(1).take(rest.len() as int)[i - 1] == rest[i - 1]);
                    }
                }
            }
        }
    } else {
        assert(s.take(0) =~= Seq::<char>::empty());
    }
}

/// The first `n` bytes of a text, as `str::get` takes them.
pub fn byte_prefix_of<'a>(s: &'a str, n: usize) -> (r: Option<&'a str>)
    ensures
        opt_slice(r) == byte_prefix(s@, n as int),
{
    let v = to_chars(s);
    let mut i: usize = 0;
    let mut rest: usize = n;
    proof {
        lemma_byte_prefix_is_prefix(s@, n as int);
        assert(s@.skip(0) =~= s@);
        assert(s@.take(0) =~= Seq::<char>::empty());
        if let Some(p) = byte_prefix(s@.skip(0), rest as int) {
            assert(s@.take(0) + p =~= p);
        }
    }
    while rest > 0
        invariant
            i <= v.len(),
            v@ == s@,
            match byte_prefix(s@.skip(i as int), rest as int) {
                Some(p) => byte_prefix(s@, n as int) == Some(s@.take(i as int) + p),
                None => byte_prefix(s@, n as int) is None,
            },
        decreases rest,
    {
        if i == v.len() {
            return None;
        }
        let k = char_bytes(v[i]);
        assert(s@.skip(i as int)[0] == v@[i as int]);
        if rest < k {
            return None;
        }
        proof {
            assert(s@.skip(i as int).skip(1) =~= s@.skip(i + 1));
            if let Some(p) = byte_prefix(s@.skip(i + 1), rest - k) {
                assert(s@.take(i as int) + (seq![v@[i as int]] + p) =~= s@.take(i + 1) + p);
            }
        }
        rest = rest - k;
        i += 1;
    }
    assert(s@.take(i as int) + Seq::<char>::empty() =~= s@.take(i as int));
    assert(s@.subrange(0, i as int) =~= s@.take(i as int));
    Some(s.substring_char(0, i))
}

// ---------------------------------------------------------------- order

/// Whether one text sorts before another, character by character.
pub open spec fn text_lt(a: Seq<char>, b: Seq<char>) -> bool
    decreases a.len(),
{
    if b.len() == 0 {
        false
    } else if a.len() == 0 {
        true
    } else if a[0] != b[0] {
        a[0] < b[0]
    } else {
        text_lt(a.skip(1), b.skip(1))
    }
}

/// Whether one text sorts before another or is the same.
pub open spec fn text_le(a: Seq<char>, b: Seq<char>) -> bool {
    !text_lt(b, a)
}

/// No text sorts before itself, and of two different ones exactly one is before the other.
pub proof fn lemma_text_order_total(a: Seq<char>, b: Seq<char>)
    ensures
        a == b ==> !text_lt(a, b),
        a != b ==> (text_lt(a, b) <==> !text_lt(b, a)),
    decreases a.len(),
{
    if a.len() > 0 && b.len() > 0 {
        lemma_text_order_total(a.skip(1), b.skip(1));
        if a[0] == b[0] && a.skip(1) == b.skip(1) {
            assert(a =~= seq![a[0]] + a.skip(1));
            assert(b =~= seq![b[0]] + b.skip(1));
        }
    } else if a.len() == 0 && b.len() == 0 {
        assert(a =~= b);
    }
}

/// What sorts before what sorts before a text sorts before it.
pub proof fn lemma_text_order_transitive(a: Seq<char>, b: Seq<char>, c: Seq<char>)
    requires
        text_lt(a, b),
        text_lt(b, c),
    ensures
        text_lt(a, c),
    decreases a.len(),
{
    if a.len() > 0 && a[0] == b[0] && b[0] == c[0] {
        lemma_text_order_transitive(a.skip(1), b.skip(1), c.skip(1));
    }
}

/// Whether one text sorts before another, as `str` orders them.
pub fn sorts_before(a: &str, b: &str) -> (r: bool)
    ensures
        r == text_lt(a@, b@),
{
    let x = to_chars(a);
    let y = to_chars(b);
    let mut i: usize = 0;
    assert(a@.skip(0) =~= a@);
    assert(b@.skip(0) =~= b@);
    while i < x.len() && i < y.len() && x[i] == y[i]
        invariant
            i <= x.len(),
            i <= y.len(),
            x@ == a@,
            y@ == b@,
            text_lt(a@, b@) == text_lt(a@.skip(i as int), b@.skip(i as int)),
        decreases x.len() - i,
    {
        assert(a@.skip(i as int).skip(1) =~= a@.skip(i + 1));
        assert(b@.skip(i as int).skip(1) =~= b@.skip(i + 1));
        i += 1;
    }
    if i == y.len() {
        false
    } else if i == x.len() {
        true
    } else {
        x[i] < y[i]
    }
}

// ---------------------------------------------------------------- what texts keep

/// A number is read back from the digits that write it, whatever zeros stand before them.
pub proof fn law_digits_read_back(n: nat, zeros_before: nat)
    ensures
        digits_value(decimal(n)) == n,
        digits_value(zeros(zeros_before as int) + decimal(n)) == n,
        all_digits(decimal(n)),
        n > 0 ==> decimal(n)[0] != '0',
    decreases n,
{
    lemma_decimal_digits(n);
    if n >= 10 {
        law_digits_read_back(n / 10, zeros_before);
        let head = decimal(n / 10);
        assert(decimal(n).drop_last() =~= head);
        let longer = zeros(zeros_before as int) + decimal(n);
        assert(longer.drop_last() =~= zeros(zeros_before as int) + head);
    } else {
        lemma_zeros_value(zeros_before);
        let longer = zeros(zeros_before as int) + decimal(n);
        assert(longer.drop_last() =~= zeros(zeros_before as int));
        assert(decimal(n).drop_last() =~= Seq::<char>::empty());
        assert(digits_value(Seq::<char>::empty()) == 0);
    }
}

proof fn lemma_zeros_value(n: nat)
    ensures
        digits_value(zeros(n as int)) == 0,
    decreases n,
{
    if n > 0 {
        lemma_zeros_value((n - 1) as nat);
        assert(zeros(n as int).drop_last() =~= zeros(n - 1));
    }
}

/// An integer that was written is read back, with or without a sign before it; a text with
/// anything but digits behind its sign is no integer, nor is one that does not fit 64 bits.
pub proof fn law_integers_read_back(n: int, s: Seq<char>)
    ensures
        i64::MIN <= n <= i64::MAX ==> integer_value(integer(n)) == Some(n),
        0 <= n <= i64::MAX ==> integer_value(seq!['+'] + decimal(n as nat)) == Some(n),
        n > i64::MAX || n < i64::MIN ==> integer_value(integer(n)) is None,
        integer_value(s) is Some ==> s.len() > 0 && forall|i: int|
            0 <= i < s.len() ==> '0' <= #[trigger] s[i] <= '9' || (i == 0 && s.len() > 1 && (s[0]
                == '-' || s[0] == '+')),
{
    let m = (if n < 0 {
        -n
    } else {
        n
    }) as nat;
    law_digits_read_back(m, 0);
    lemma_decimal_digits(m);
    assert('0' <= decimal(m)[0] <= '9');
    assert((seq!['-'] + decimal(m)).skip(1) =~= decimal(m));
    assert((seq!['+'] + decimal(m)).skip(1) =~= decimal(m));
    if integer_value(s) is Some {
        assert forall|i: int| 0 <= i < s.len() implies '0' <= #[trigger] s[i] <= '9' || (i == 0
            && s.len() > 1 && (s[0] == '-' || s[0] == '+')) by {
            if s[0] == '-' || s[0] == '+' {
                if i > 0 {
                    assert(is_digit(s.skip(1)[i - 1]));
                }
            } else {
                assert(is_digit(s[i]));
            }
        }
    }
}

/// A number that is filled up has the width that was asked for, or its own where that is more,
/// and reads as the number.
pub proof fn law_filling_up_keeps_the_number(n: nat, width: int)
    ensures
        digits_value(padded(n as int, width)) == n,
        decimal(n).len() <= width ==> padded(n as int, width).len() == width,
        decimal(n).len() >= width ==> padded(n as int, width) == decimal(n),
{
    let fill = width - decimal(n).len();
    if fill >= 0 {
        law_digits_read_back(n, fill as nat);
    } else {
        law_digits_read_back(n, 0);
    }
    if fill <= 0 {
        assert(padded(n as int, width) =~= decimal(n));
    }
}

/// Whether a text is nothing but characters of a class.
pub open spec fn only(s: Seq<char>, class: CharClass) -> bool {
    forall|i: int| 0 <= i < s.len() ==> class.holds(#[trigger] s[i])
}

/// A trim takes the characters of its class off both ends and nothing else: what it leaves stands
/// in the text between two stretches of that class, and neither begins nor ends with one.
pub proof fn law_trims_take_off_the_ends(s: Seq<char>, class: CharClass)
    ensures
        exists|a: Seq<char>, b: Seq<char>|
            #[trigger] only(a, class) && #[trigger] only(b, class) && s == a + trim(s, class) + b,
        trim(s, class).len() > 0 ==> !class.holds(trim(s, class)[0]) && !class.holds(
            trim(s, class).last(),
        ),
{
    let left = trim_left(s, class);
    let mid = trim_right(left, class);
    lemma_trim_left(s, class);
    lemma_trim_right(left, class);
    let a = s.take(s.len() - left.len());
    let b = left.skip(mid.len() as int);
    assert(only(a, class) && only(b, class));
    assert(s =~= a + mid + b);
    if mid.len() > 0 {
        assert(mid[0] == left[0]);
    }
}

/// A text that neither begins nor ends with a character of a class is what a trim leaves of it,
/// however many of them stand around it.
pub proof fn law_padding_is_trimmed_off(
    a: Seq<char>,
    s: Seq<char>,
    b: Seq<char>,
    class: CharClass,
)
    requires
        only(a, class),
        only(b, class),
        s.len() > 0,
        !class.holds(s[0]),
        !class.holds(s.last()),
    ensures
        trim(a + s + b, class) == s,
        trim_left(a + s, class) == s,
{
    lemma_padding_before(a, s + b, class);
    assert(a + (s + b) =~= a + s + b);
    lemma_padding_before(a, s, class);
    lemma_trim_right(s + b, class);
    let mid = trim_right(s + b, class);
    let rest = (s + b).skip(mid.len() as int);
    if mid.len() < s.len() {
        assert(rest[s.len() - 1 - mid.len()] == s.last());
    } else if mid.len() > s.len() {
        assert(mid.last() == b[mid.len() - 1 - s.len()]);
    }
    assert(mid =~= s);
}

pub proof fn lemma_padding_before(a: Seq<char>, s: Seq<char>, class: CharClass)
    requires
        only(a, class),
        s.len() > 0,
        !class.holds(s[0]),
    ensures
        trim_left(a + s, class) == s,
{
    lemma_trim_left(a + s, class);
    let left = trim_left(a + s, class);
    let k = (a + s).len() - left.len();
    if k < a.len() {
        assert(left[0] == a[k]);
    } else if k > a.len() {
        assert((a + s).take(k)[a.len() as int] == s[0]);
    }
    assert(left =~= s);
}

proof fn lemma_trim_left(s: Seq<char>, class: CharClass)
    ensures
        trim_left(s, class).len() <= s.len(),
        trim_left(s, class) == s.skip(s.len() - trim_left(s, class).len()),
        only(s.take(s.len() - trim_left(s, class).len()), class),
        trim_left(s, class).len() > 0 ==> !class.holds(trim_left(s, class)[0]),
    decreases s.len(),
{
    if s.len() > 0 && class.holds(s[0]) {
        let rest = s.skip(1);
        lemma_trim_left(rest, class);
        let t = trim_left(rest, class);
        let k = s.len() - t.len();
        assert(t =~= s.skip(k));
        assert forall|i: int| 0 <= i < s.take(k).len() implies class.holds(#[trigger] s.take(k)[i]) by {
            if i > 0 {
                assert(rest.take(rest.len() - t.len())[i - 1] == s[i]);
            }
        }
    } else {
        assert(s.skip(0) =~= s);
    }
}

proof fn lemma_trim_right(s: Seq<char>, class: CharClass)
    ensures
        trim_right(s, class).len() <= s.len(),
        trim_right(s, class) == s.take(trim_right(s, class).len() as int),
        only(s.skip(trim_right(s, class).len() as int), class),
        trim_right(s, class).len() > 0 ==> !class.holds(trim_right(s, class).last()),
    decreases s.len(),
{
    if s.len() > 0 && class.holds(s.last()) {
        let rest = s.drop_last();
        lemma_trim_right(rest, class);
        let t = trim_right(rest, class);
        let k = t.len() as int;
        assert(t =~= s.take(k));
        assert forall|i: int| 0 <= i < s.skip(k).len() implies class.holds(#[trigger] s.skip(k)[i]) by {
            if i < rest.skip(k).len() {
                assert(rest.skip(k)[i] == s[k + i]);
            }
        }
    } else {
        assert(s.take(s.len() as int) =~= s);
    }
}

/// Pieces with a separator between any two.
pub open spec fn rejoined(pieces: Seq<Seq<char>>, sep: char) -> Seq<char>
    decreases pieces.len(),
{
    if pieces.len() == 0 {
        Seq::empty()
    } else if pieces.len() == 1 {
        pieces[0]
    } else {
        rejoined(pieces.drop_last(), sep) + seq![sep] + pieces.last()
    }
}

/// The pieces of a text, with the separator between them, are the text, and none of them holds
/// the separator.
pub proof fn law_pieces_are_the_text(s: Seq<char>, sep: char)
    ensures
        rejoined(split(s, sep), sep) == s,
        forall|k: int|
            0 <= k < split(s, sep).len() ==> !(#[trigger] split(s, sep)[k]).contains(sep),
        split(s, sep).len() >= 1,
    decreases s.len(),
{
    lemma_split_nonempty(s, sep);
    if s.len() > 0 {
        let t = s.drop_last();
        let c = s.last();
        let head = split(t, sep);
        let all = split(s, sep);
        lemma_split_nonempty(t, sep);
        law_pieces_are_the_text(t, sep);
        assert(t.push(c) =~= s);
        if c == sep {
            assert(all.drop_last() =~= head);
            assert(rejoined(all, sep) =~= t + seq![sep] + Seq::<char>::empty());
            assert(rejoined(all, sep) =~= s);
            assert forall|k: int| 0 <= k < all.len() implies !(#[trigger] all[k]).contains(sep) by {
                if k < head.len() {
                    assert(all[k] == head[k]);
                }
            }
        } else {
            let last = head.last().push(c);
            assert(all.drop_last() =~= head.drop_last());
            assert(all.last() == last);
            if head.len() == 1 {
                assert(head[0] == t);
                assert(rejoined(all, sep) =~= s);
            } else {
                assert(rejoined(head, sep) == rejoined(head.drop_last(), sep) + seq![sep]
                    + head.last());
                assert(rejoined(all, sep) =~= s);
            }
            assert forall|k: int| 0 <= k < all.len() implies !(#[trigger] all[k]).contains(sep) by {
                if k < head.len() - 1 {
                    assert(all[k] == head[k]);
                } else {
                    assert(!head[head.len() - 1].contains(sep));
                    if last.contains(sep) {
                        let i = choose|i: int| 0 <= i < last.len() && last[i] == sep;
                        if i < head.last().len() {
                            assert(head.last()[i] == sep);
                        }
                    }
                }
            }
        }
    } else {
        assert(s =~= Seq::<char>::empty());
        assert(split(s, sep) =~= seq![s]);
    }
}

/// A text that holds a separator is what stands before the first one, the separator, and what
/// stands behind it; one that does not stands before it as a whole.
pub proof fn law_a_separator_parts_a_text(s: Seq<char>, sep: char)
    ensures
        !before(s, sep).contains(sep),
        s.contains(sep) ==> s == before(s, sep) + seq![sep] + after(s, sep),
        !s.contains(sep) ==> before(s, sep) == s,
{
    lemma_run(s, sep);
    if before(s, sep).contains(sep) {
        let i = choose|i: int| 0 <= i < before(s, sep).len() && before(s, sep)[i] == sep;
        assert(s[i] == sep);
    }
    if s.contains(sep) {
        assert(s =~= before(s, sep) + seq![sep] + after(s, sep));
    } else {
        assert(before(s, sep) =~= s);
    }
}

/// A text without a character has every other character of it, in the order that they had.
pub proof fn law_taking_out_keeps_the_rest(s: Seq<char>, c: char)
    ensures
        without(s, c) == s.filter(|x: char| x != c),
    decreases s.len(),
{
    reveal(Seq::filter);
    if s.len() > 0 {
        law_taking_out_keeps_the_rest(s.drop_last(), c);
    } else {
        assert(without(s, c) =~= s.filter(|x: char| x != c));
    }
}

/// Of two texts the first difference decides, and where there is none the shorter one sorts
/// before the longer.
pub proof fn law_the_first_difference_decides(a: Seq<char>, b: Seq<char>, k: int)
    requires
        0 <= k <= a.len(),
        k <= b.len(),
        a.take(k) == b.take(k),
    ensures
        k < a.len() && k < b.len() && a[k] != b[k] ==> (text_lt(a, b) <==> a[k] < b[k]),
        k == a.len() ==> (text_lt(a, b) <==> a.len() < b.len()),
        k == b.len() ==> !text_lt(a, b),
    decreases k,
{
    if k > 0 {
        assert(a.take(k)[0] == a[0]);
        assert(b.take(k)[0] == b[0]);
        assert(a.skip(1).take(k - 1) =~= a.take(k).skip(1));
        assert(b.skip(1).take(k - 1) =~= b.take(k).skip(1));
        law_the_first_difference_decides(a.skip(1), b.skip(1), k - 1);
    }
}

/// A line ends at its line feed, or at the carriage return before it, and the last one may end
/// with the text; behind the last line feed there is none.
pub proof fn law_lines_end_at_line_feeds(line: Seq<char>, rest: Seq<char>)
    requires
        !line.contains('\n'),
    ensures
        lines(line + seq!['\r', '\n'] + rest) == seq![line] + lines(rest),
        line.len() == 0 || line.last() != '\r' ==> lines(line + seq!['\n'] + rest) == seq![line]
            + lines(rest),
        line.len() > 0 ==> lines(line) == seq![line],
        lines(Seq::empty()).len() == 0,
{
    assert forall|i: int| 0 <= i < line.len() implies line[i] != '\n' by {
        if line[i] == '\n' {
            assert(line.contains('\n'));
        }
    }
    let ended = line.push('\r');
    lemma_first_line(line, rest);
    lemma_first_line(ended, rest);
    assert(ended + seq!['\n'] + rest =~= line + seq!['\r', '\n'] + rest);
    assert(ended.drop_last() =~= line);
    lemma_split_whole(line, '\n');
    lemma_split_whole(Seq::empty(), '\n');
    assert(lines(line) =~= if line.len() == 0 {
        Seq::empty()
    } else {
        seq![line]
    });
}

proof fn lemma_first_line(line: Seq<char>, rest: Seq<char>)
    requires
        forall|i: int| 0 <= i < line.len() ==> line[i] != '\n',
    ensures
        lines(line + seq!['\n'] + rest) == seq![without_return(line)] + lines(rest),
{
    lemma_split_first(line, '\n', rest);
    lemma_split_nonempty(rest, '\n');
    let all = split(line + seq!['\n'] + rest, '\n');
    let later = split(rest, '\n');
    assert(all.last() == later.last());
    assert(all.drop_last() =~= seq![line] + later.drop_last());
    let cut = |l: Seq<char>| without_return(l);
    assert(all.drop_last().map_values(cut) =~= seq![without_return(line)]
        + later.drop_last().map_values(cut));
    assert(lines(line + seq!['\n'] + rest) =~= seq![without_return(line)] + lines(rest));
}

/// Where the first characters of a text take a byte each, so many bytes are so many characters.
pub proof fn law_plain_prefixes_are_counted_in_characters(s: Seq<char>, n: int)
    requires
        n >= 0,
        forall|i: int| 0 <= i < n && i < s.len() ==> (#[trigger] s[i]) < '\u{80}',
    ensures
        n <= s.len() ==> byte_prefix(s, n) == Some(s.take(n)),
        n > s.len() ==> byte_prefix(s, n) is None,
    decreases n,
{
    if n > 0 && s.len() > 0 {
        let rest = s.skip(1);
        assert forall|i: int| 0 <= i < n - 1 && i < rest.len() implies (#[trigger] rest[i])
            < '\u{80}' by {
            assert(rest[i] == s[i + 1]);
        }
        assert(s[0] < '\u{80}');
        law_plain_prefixes_are_counted_in_characters(rest, n - 1);
        if n <= s.len() {
            assert(seq![s[0]] + rest.take(n - 1) =~= s.take(n));
        }
    } else if n == 0 {
        assert(s.take(0) =~= Seq::<char>::empty());
    }
}

/// What stands before or behind a text comes off it again.
pub proof fn law_what_was_put_on_comes_off(s: Seq<char>, part: Seq<char>)
    ensures
        drop_prefix(part + s, part) == s,
        drop_suffix(s + part, part) == s,
        !starts_with(s, part) ==> drop_prefix(s, part) == s,
        !ends_with(s, part) ==> drop_suffix(s, part) == s,
{
    assert((part + s).take(part.len() as int) =~= part);
    assert((part + s).skip(part.len() as int) =~= s);
    assert((s + part).skip(s.len() as int) =~= part);
    assert((s + part).take(s.len() as int) =~= s);
}

} // verus!
