//! The files that history comes from: tab-separated readings, monthly counts from before
//! anything was measured, and the table that says how much of each month was captured.

use vstd::prelude::*;

use crate::plural;
#[allow(unused_imports)]
use crate::counted;
#[allow(unused_imports)]
use crate::text::{
    ascii_digit, byte_prefix, byte_prefix_of, clone_text, decimal, integer_value, is_digit, is_space,
    law_padding_is_trimmed_off, law_plain_prefixes_are_counted_in_characters,
    law_what_was_put_on_comes_off, lemma_padding_before, lemma_split_first, lemma_split_whole, lemma_text_order_total,
    lemma_text_order_transitive, lines, lines_of, opt_slice, opt_text, parse_i64, push_decimal,
    same, sorts_before, split, split_on, starts_with, strip_prefix_of, strip_suffix_of, text_lt, texts, to_chars, trim,
    trim_end_of, trim_left, trim_of, trim_right, trim_space, trim_start_of, trimmed, drop_suffix, ends_with, without,
    CharClass,
};

verus! {

/// How many lines of monthly counts are written at once.
pub const PREHISTORY_BATCH: usize = 50_000;

/// The lane of a repo that came out of a file.
pub const IMPORT_LANE: &'static str = "import";

// ---------------------------------------------------------------- one line

#[derive(Debug, Clone, PartialEq, Eq)]
pub struct SnapshotRow {
    pub ts: String,
    pub full_name: String,
    pub stars: i64,
    pub created_at: Option<String>,
    pub forks: Option<i64>,
    pub open_issues: Option<i64>,
    pub pushed_at: Option<String>,
}

/// What a reading of a file says.
pub struct SnapshotView {
    pub ts: Seq<char>,
    pub full_name: Seq<char>,
    pub stars: int,
    pub created_at: Option<Seq<char>>,
    pub forks: Option<int>,
    pub open_issues: Option<int>,
    pub pushed_at: Option<Seq<char>>,
}

/// An optional number as an integer.
pub open spec fn opt_number(n: Option<i64>) -> Option<int> {
    match n {
        Some(k) => Some(k as int),
        None => None,
    }
}

impl View for SnapshotRow {
    type V = SnapshotView;

    open spec fn view(&self) -> SnapshotView {
        SnapshotView {
            ts: self.ts@,
            full_name: self.full_name@,
            stars: self.stars as int,
            created_at: opt_text(self.created_at),
            forks: opt_number(self.forks),
            open_issues: opt_number(self.open_issues),
            pushed_at: opt_text(self.pushed_at),
        }
    }
}

#[derive(Debug, Clone, Copy, PartialEq, Eq)]
pub struct PrehistoryRow<'a> {
    pub full_name: &'a str,
    pub month: &'a str,
    pub gross_watch_events: i64,
}

/// What a monthly count of a file says.
pub struct PrehistoryView {
    pub full_name: Seq<char>,
    pub month: Seq<char>,
    pub gross_watch_events: int,
}

impl<'a> PrehistoryRow<'a> {
    pub open spec fn says(self) -> PrehistoryView {
        PrehistoryView {
            full_name: self.full_name@,
            month: self.month@,
            gross_watch_events: self.gross_watch_events as int,
        }
    }
}

/// A column that a line can be wrong in.
#[derive(Debug, Clone, Copy, PartialEq, Eq, Structural)]
pub enum Column {
    Ts,
    Repo,
    Stars,
    Forks,
    OpenIssues,
    RepoName,
    WatchEvents,
}

/// The name of a column.
pub open spec fn column_name(column: Column) -> Seq<char> {
    match column {
        Column::Ts => "ts"@,
        Column::Repo => "repo"@,
        Column::Stars => "stars"@,
        Column::Forks => "forks"@,
        Column::OpenIssues => "open_issues"@,
        Column::RepoName => "repo_name"@,
        Column::WatchEvents => "watch_events"@,
    }
}

impl Column {
    pub fn name(&self) -> (r: &'static str)
        ensures
            r@ == column_name(*self),
    {
        match self {
            Column::Ts => "ts",
            Column::Repo => "repo",
            Column::Stars => "stars",
            Column::Forks => "forks",
            Column::OpenIssues => "open_issues",
            Column::RepoName => "repo_name",
            Column::WatchEvents => "watch_events",
        }
    }
}

/// What is wrong with a line.
#[derive(Debug, Clone, PartialEq, Eq)]
pub enum LineError {
    /// So many fields, which no line has.
    Width(usize),
    Empty(Column),
    NotANumber(Column),
    /// The text that stands for a month is neither `YYYY-MM` nor `YYYY-MM-DD`.
    BadMonth(String),
}

/// What is wrong with a line, as numbers and texts.
pub enum LineFault {
    Width(int),
    Empty(Column),
    NotANumber(Column),
    BadMonth(Seq<char>),
}

impl View for LineError {
    type V = LineFault;

    open spec fn view(&self) -> LineFault {
        match *self {
            LineError::Width(got) => LineFault::Width(got as int),
            LineError::Empty(column) => LineFault::Empty(column),
            LineError::NotANumber(column) => LineFault::NotANumber(column),
            LineError::BadMonth(text) => LineFault::BadMonth(text@),
        }
    }
}

/// A field that is there: white space around it does not count.
pub open spec fn filled(field: Seq<char>) -> Option<Seq<char>> {
    if trimmed(field).len() == 0 {
        None
    } else {
        Some(trimmed(field))
    }
}

fn present<'a>(field: &'a str) -> (r: Option<&'a str>)
    ensures
        opt_slice(r) == filled(field@),
{
    let field = trim_space(field);
    if field.unicode_len() == 0 {
        None
    } else {
        Some(field)
    }
}

fn owned(s: Option<&str>) -> (r: Option<String>)
    ensures
        opt_text(r) == opt_slice(s),
{
    match s {
        Some(text) => Some(text.to_owned()),
        None => None,
    }
}

fn required<'a>(field: &'a str, column: Column) -> (r: Result<&'a str, LineError>)
    ensures
        match r {
            Ok(text) => filled(field@) == Some(text@),
            Err(error) => filled(field@) is None && error@ == LineFault::Empty(column),
        },
{
    match present(field) {
        Some(text) => Ok(text),
        None => Err(LineError::Empty(column)),
    }
}

/// The number in a field that may be empty.
pub open spec fn number_in(field: Seq<char>, column: Column) -> Result<Option<int>, LineFault> {
    match filled(field) {
        None => Ok(None),
        Some(text) => match integer_value(text) {
            Some(n) => Ok(Some(n)),
            None => Err(LineFault::NotANumber(column)),
        },
    }
}

fn optional_int(field: &str, column: Column) -> (r: Result<Option<i64>, LineError>)
    ensures
        match r {
            Ok(n) => number_in(field@, column) == Ok::<Option<int>, LineFault>(opt_number(n)),
            Err(error) => number_in(field@, column) == Err::<Option<int>, LineFault>(error@),
        },
{
    match present(field) {
        Some(text) => match parse_i64(text) {
            Some(n) => Ok(Some(n)),
            None => Err(LineError::NotANumber(column)),
        },
        None => Ok(None),
    }
}

/// A line without the characters that end it.
pub open spec fn bare(line: Seq<char>) -> Seq<char> {
    trim_right(line, CharClass::LineEnd)
}

/// The reading in the fields of a line, by the first field that is wrong.
pub open spec fn snapshot_in(f: Seq<Seq<char>>) -> Result<SnapshotView, LineFault> {
    let forks = if f.len() == 7 {
        number_in(f[4], Column::Forks)
    } else {
        Ok(None)
    };
    let open_issues = if f.len() == 7 {
        number_in(f[5], Column::OpenIssues)
    } else {
        Ok(None)
    };
    if f.len() != 4 && f.len() != 7 {
        Err(LineFault::Width(f.len() as int))
    } else if filled(f[0]) is None {
        Err(LineFault::Empty(Column::Ts))
    } else if filled(f[1]) is None {
        Err(LineFault::Empty(Column::Repo))
    } else if filled(f[2]) is None {
        Err(LineFault::Empty(Column::Stars))
    } else if integer_value(trimmed(f[2])) is None {
        Err(LineFault::NotANumber(Column::Stars))
    } else if forks is Err {
        Err(LineFault::NotANumber(Column::Forks))
    } else if open_issues is Err {
        Err(LineFault::NotANumber(Column::OpenIssues))
    } else {
        Ok(
            SnapshotView {
                ts: trimmed(f[0]),
                full_name: trimmed(f[1]),
                stars: integer_value(trimmed(f[2]))->0,
                created_at: filled(f[3]),
                forks: forks->Ok_0,
                open_issues: open_issues->Ok_0,
                pushed_at: if f.len() == 7 {
                    filled(f[6])
                } else {
                    None
                },
            },
        )
    }
}

/// The reading in a line; an empty line holds none.
pub open spec fn snapshot_of(line: Seq<char>) -> Result<Option<SnapshotView>, LineFault> {
    if bare(line).len() == 0 {
        Ok(None)
    } else {
        match snapshot_in(split(bare(line), '\t')) {
            Ok(row) => Ok(Some(row)),
            Err(fault) => Err(fault),
        }
    }
}

/// `ts repo stars created [forks open_issues pushed_at]`; the collector wrote the short form
/// before it learned the other three columns.
pub fn parse_snapshot_line(line: &str) -> (r: Result<Option<SnapshotRow>, LineError>)
    ensures
        match r {
            Ok(Some(row)) => snapshot_of(line@) == Ok::<Option<SnapshotView>, LineFault>(Some(row@)),
            Ok(None) => snapshot_of(line@) == Ok::<Option<SnapshotView>, LineFault>(None),
            Err(error) => snapshot_of(line@) == Err::<Option<SnapshotView>, LineFault>(error@),
        },
{
    let line = trim_end_of(line, &CharClass::LineEnd);
    if line.unicode_len() == 0 {
        return Ok(None);
    }
    let f = split_on(line, '\t');
    let ghost fields = texts(f@);
    let n = f.len();
    if n != 4 && n != 7 {
        return Err(LineError::Width(n));
    }
    assert(fields.len() == n);
    assert(forall|k: int| 0 <= k < n ==> #[trigger] fields[k] == f@[k]@);
    let ts = match required(f[0], Column::Ts) {
        Ok(text) => text,
        Err(error) => return Err(error),
    };
    let full_name = match required(f[1], Column::Repo) {
        Ok(text) => text,
        Err(error) => return Err(error),
    };
    let stars = match required(f[2], Column::Stars) {
        Ok(text) => match parse_i64(text) {
            Some(stars) => stars,
            None => return Err(LineError::NotANumber(Column::Stars)),
        },
        Err(error) => return Err(error),
    };
    let mut forks: Option<i64> = None;
    let mut open_issues: Option<i64> = None;
    let mut pushed_at: Option<String> = None;
    if n == 7 {
        forks =
        match optional_int(f[4], Column::Forks) {
            Ok(forks) => forks,
            Err(error) => return Err(error),
        };
        open_issues =
        match optional_int(f[5], Column::OpenIssues) {
            Ok(open_issues) => open_issues,
            Err(error) => return Err(error),
        };
        pushed_at = owned(present(f[6]));
    }
    Ok(
        Some(
            SnapshotRow {
                ts: ts.to_owned(),
                full_name: full_name.to_owned(),
                stars,
                created_at: owned(present(f[3])),
                forks,
                open_issues,
                pushed_at,
            },
        ),
    )
}

/// Whether a text is a month, `YYYY-MM`.
pub open spec fn month_shaped(s: Seq<char>) -> bool {
    s.len() == 7 && s[4] == '-' && forall|k: int| 0 <= k < 7 && k != 4 ==> is_digit(#[trigger] s[k])
}

fn is_month(s: &str) -> (r: bool)
    ensures
        r == month_shaped(s@),
{
    let v = to_chars(s);
    if v.len() != 7 || v[4] != '-' {
        return false;
    }
    let mut i: usize = 0;
    while i < 7
        invariant
            i <= 7,
            v.len() == 7,
            v@ == s@,
            v@[4] == '-',
            forall|k: int| 0 <= k < i && k != 4 ==> is_digit(#[trigger] v@[k]),
        decreases 7 - i,
    {
        if i != 4 && !ascii_digit(v[i]) {
            assert(!is_digit(s@[i as int]));
            return false;
        }
        i += 1;
    }
    true
}

/// The month that a text begins with.
pub open spec fn leading_month(s: Seq<char>) -> Option<Seq<char>> {
    match byte_prefix(s, 7) {
        Some(month) => if month_shaped(month) {
            Some(month)
        } else {
            None
        },
        None => None,
    }
}

fn month_of<'a>(s: &'a str) -> (r: Option<&'a str>)
    ensures
        opt_slice(r) == leading_month(s@),
{
    match byte_prefix_of(s, 7) {
        Some(month) => if is_month(month) {
            Some(month)
        } else {
            None
        },
        None => None,
    }
}

/// The month in a field: the month alone, or a day of it.
pub open spec fn month_in(field: Seq<char>) -> Option<Seq<char>> {
    if leading_month(field) is Some && (field.len() == 7 || (field.len() > 7 && field[7] == '-')) {
        leading_month(field)
    } else {
        None
    }
}

/// The monthly count in a line, by the first field that is wrong; an empty line holds none.
pub open spec fn prehistory_of(line: Seq<char>) -> Result<Option<PrehistoryView>, LineFault> {
    let f = split(bare(line), '\t');
    if bare(line).len() == 0 {
        Ok(None)
    } else if f.len() != 3 {
        Err(LineFault::Width(f.len() as int))
    } else {
        match filled(f[0]) {
            None => Err(LineFault::Empty(Column::RepoName)),
            Some(full_name) => match month_in(f[1]) {
                None => Err(LineFault::BadMonth(f[1])),
                Some(month) => match integer_value(trimmed(f[2])) {
                    None => Err(LineFault::NotANumber(Column::WatchEvents)),
                    Some(n) => Ok(Some(PrehistoryView { full_name, month, gross_watch_events: n })),
                },
            },
        }
    }
}

/// `repo_name month watch_events`, month as first-of-month; only `YYYY-MM` of it is kept.
pub fn parse_prehistory_line<'a>(line: &'a str) -> (r: Result<Option<PrehistoryRow<'a>>, LineError>)
    ensures
        match r {
            Ok(Some(row)) => prehistory_of(line@) == Ok::<Option<PrehistoryView>, LineFault>(
                Some(row.says()),
            ),
            Ok(None) => prehistory_of(line@) == Ok::<Option<PrehistoryView>, LineFault>(None),
            Err(error) => prehistory_of(line@) == Err::<Option<PrehistoryView>, LineFault>(error@),
        },
{
    let line = trim_end_of(line, &CharClass::LineEnd);
    if line.unicode_len() == 0 {
        return Ok(None);
    }
    let f = split_on(line, '\t');
    let ghost fields = texts(f@);
    let n = f.len();
    if n != 3 {
        return Err(LineError::Width(n));
    }
    assert(fields.len() == n);
    assert(forall|k: int| 0 <= k < n ==> #[trigger] fields[k] == f@[k]@);
    let full_name = match required(f[0], Column::RepoName) {
        Ok(text) => text,
        Err(error) => return Err(error),
    };
    let written = f[1];
    let length = written.unicode_len();
    let month = match month_of(written) {
        Some(month) => {
            if length == 7 || (length > 7 && written.get_char(7) == '-') {
                month
            } else {
                return Err(LineError::BadMonth(written.to_owned()));
            }
        },
        None => return Err(LineError::BadMonth(written.to_owned())),
    };
    match parse_i64(trim_space(f[2])) {
        Some(gross_watch_events) => Ok(
            Some(PrehistoryRow { full_name, month, gross_watch_events }),
        ),
        None => Err(LineError::NotANumber(Column::WatchEvents)),
    }
}

// ---------------------------------------------------------------- the capture table

fn drop_char(s: &str, c: char) -> (r: String)
    ensures
        r@ == without(s@, c),
{
    let v = to_chars(s);
    let mut out = String::new();
    let mut i: usize = 0;
    assert(s@.take(0) =~= Seq::<char>::empty());
    assert(out@ =~= Seq::<char>::empty());
    while i < v.len()
        invariant
            i <= v.len(),
            v@ == s@,
            out@ == without(s@.take(i as int), c),
        decreases v.len() - i,
    {
        assert(s@.take(i + 1).drop_last() =~= s@.take(i as int));
        assert(s@.take(i + 1).last() == v@[i as int]);
        if v[i] != c {
            out.push(v[i]);
        }
        i += 1;
    }
    assert(s@.take(i as int) =~= s@);
    out
}

/// The month and the percentage, as it is written, in a line of the table. A line that is no
/// row, or whose cells do not look like a month and a percentage, holds neither.
pub open spec fn ratio_in(line: Seq<char>) -> Option<(Seq<char>, Seq<char>)> {
    let row = trimmed(line);
    let cells = split(trim(row, CharClass::Only('|')), '|');
    if !starts_with(row, "|"@) || cells.len() < 3 {
        None
    } else {
        let percent = trimmed(cells[2]);
        match leading_month(trimmed(cells[0])) {
            Some(month) => if ends_with(percent, "%"@) {
                let number = drop_suffix(percent, "%"@);
                Some((month, without(trimmed(trim_left(number, CharClass::Only('~'))), ',')))
            } else {
                None
            },
            None => None,
        }
    }
}

fn parse_ratio(line: &str) -> (r: Option<(String, String)>)
    ensures
        match r {
            Some((month, percent)) => ratio_in(line@) == Some((month@, percent@)),
            None => ratio_in(line@) is None,
        },
{
    let row = trim_space(line);
    if strip_prefix_of(row, "|").is_none() {
        return None;
    }
    let inner = trim_of(row, &CharClass::Only('|'));
    let cells = split_on(inner, '|');
    let ghost pieces = texts(cells@);
    if cells.len() < 3 {
        return None;
    }
    assert(pieces[0] == cells@[0]@ && pieces[2] == cells@[2]@);
    let month = match month_of(trim_space(cells[0])) {
        Some(month) => month,
        None => return None,
    };
    match strip_suffix_of(trim_space(cells[2]), "%") {
        Some(number) => {
            let percent = trim_space(trim_start_of(number, &CharClass::Only('~')));
            Some((month.to_owned(), drop_char(percent, ',')))
        },
        None => None,
    }
}

/// The rows of the table in the first so many lines.
pub open spec fn ratios_in(text: Seq<Seq<char>>) -> Seq<(Seq<char>, Seq<char>)>
    decreases text.len(),
{
    if text.len() == 0 {
        Seq::empty()
    } else {
        match ratio_in(text.last()) {
            Some(row) => ratios_in(text.drop_last()).push(row),
            None => ratios_in(text.drop_last()),
        }
    }
}

/// A list of pairs of texts.
pub open spec fn pair_texts(v: Seq<(String, String)>) -> Seq<(Seq<char>, Seq<char>)> {
    v.map_values(|p: (String, String)| (p.0@, p.1@))
}

/// The manifest's capture table, `| month | WatchEvents | capture vs baseline |`, as months
/// and the percentages written for them; `None` where no line is such a row. These numbers are
/// measurements; they only ever come from the file.
pub fn parse_capture_ratios(markdown: &str) -> (r: Option<Vec<(String, String)>>)
    ensures
        match r {
            Some(rows) => pair_texts(rows@) == ratios_in(lines(markdown@)) && rows@.len() > 0,
            None => ratios_in(lines(markdown@)).len() == 0,
        },
{
    let all = lines_of(markdown);
    let ghost text = lines(markdown@);
    let mut rows: Vec<(String, String)> = Vec::new();
    let mut i: usize = 0;
    assert(texts(all@) == text);
    assert(text.take(0) =~= Seq::<Seq<char>>::empty());
    assert(pair_texts(rows@) =~= Seq::<(Seq<char>, Seq<char>)>::empty());
    while i < all.len()
        invariant
            i <= all.len(),
            texts(all@) == text,
            pair_texts(rows@) == ratios_in(text.take(i as int)),
        decreases all.len() - i,
    {
        assert(text.take(i + 1).drop_last() =~= text.take(i as int));
        assert(text.take(i + 1).last() == all@[i as int]@);
        let ghost was = rows@;
        if let Some(row) = parse_ratio(all[i]) {
            rows.push(row);
            assert(pair_texts(rows@) =~= pair_texts(was).push((row.0@, row.1@)));
        }
        i += 1;
    }
    assert(text.take(i as int) =~= text);
    if rows.len() == 0 {
        None
    } else {
        Some(rows)
    }
}

// ---------------------------------------------------------------- a file of readings

/// Every reading of a list.
pub open spec fn snapshot_views(rows: Seq<SnapshotRow>) -> Seq<SnapshotView> {
    rows.map_values(|r: SnapshotRow| r@)
}

/// The readings in the lines of a file, or the first line that is wrong, counted from one.
pub open spec fn rows_in(text: Seq<Seq<char>>) -> Result<Seq<SnapshotView>, (int, LineFault)>
    decreases text.len(),
{
    if text.len() == 0 {
        Ok(Seq::empty())
    } else {
        match rows_in(text.drop_last()) {
            Err(fault) => Err(fault),
            Ok(head) => match snapshot_of(text.last()) {
                Ok(Some(row)) => Ok(head.push(row)),
                Ok(None) => Ok(head),
                Err(fault) => Err((text.len() as int, fault)),
            },
        }
    }
}

proof fn lemma_first_bad_line(text: Seq<Seq<char>>, n: int)
    requires
        0 <= n <= text.len(),
        rows_in(text.take(n)) is Err,
    ensures
        rows_in(text) == rows_in(text.take(n)),
    decreases text.len() - n,
{
    if n < text.len() {
        assert(text.take(n + 1).drop_last() =~= text.take(n));
        lemma_first_bad_line(text, n + 1);
    } else {
        assert(text.take(n) =~= text);
    }
}

/// The readings in a file. One bad line refuses the file: it comes back with its number.
pub fn read_rows(text: &str) -> (r: Result<Vec<SnapshotRow>, (usize, LineError)>)
    ensures
        match r {
            Ok(rows) => rows_in(lines(text@)) == Ok::<Seq<SnapshotView>, (int, LineFault)>(
                snapshot_views(rows@),
            ),
            Err((line, error)) => rows_in(lines(text@)) == Err::<
                Seq<SnapshotView>,
                (int, LineFault),
            >((line as int, error@)),
        },
{
    let all = lines_of(text);
    let ghost file = lines(text@);
    let mut rows: Vec<SnapshotRow> = Vec::new();
    let mut i: usize = 0;
    assert(texts(all@) == file);
    assert(file.take(0) =~= Seq::<Seq<char>>::empty());
    assert(snapshot_views(rows@) =~= Seq::<SnapshotView>::empty());
    while i < all.len()
        invariant
            i <= all.len(),
            file == lines(text@),
            texts(all@) == file,
            rows_in(file.take(i as int)) == Ok::<Seq<SnapshotView>, (int, LineFault)>(
                snapshot_views(rows@),
            ),
        decreases all.len() - i,
    {
        assert(file.take(i + 1).drop_last() =~= file.take(i as int));
        assert(file.take(i + 1).last() == all@[i as int]@);
        let ghost was = rows@;
        match parse_snapshot_line(all[i]) {
            Ok(Some(row)) => {
                rows.push(row);
                assert(snapshot_views(rows@) =~= snapshot_views(was).push(row@));
            },
            Ok(None) => {},
            Err(error) => {
                proof {
                    lemma_first_bad_line(file, i + 1);
                }
                return Err((i + 1, error));
            },
        }
        i += 1;
    }
    assert(file.take(i as int) =~= file);
    Ok(rows)
}

// ---------------------------------------------------------------- the repos of a file

/// What a file says of one repo.
#[derive(Debug, Clone, PartialEq, Eq)]
pub struct NameTally {
    pub name: String,
    /// The earliest reading.
    pub first_seen: String,
    /// The first creation date that is given.
    pub created: Option<String>,
    /// How many readings there are.
    pub rows: usize,
}

/// How many readings a repo has.
pub open spec fn count_of(rows: Seq<SnapshotView>, name: Seq<char>) -> nat
    decreases rows.len(),
{
    if rows.len() == 0 {
        0
    } else {
        count_of(rows.drop_last(), name) + (if rows.last().full_name == name {
            1nat
        } else {
            0
        })
    }
}

/// A repo's earliest reading.
pub open spec fn first_seen_of(rows: Seq<SnapshotView>, name: Seq<char>) -> Option<Seq<char>>
    decreases rows.len(),
{
    if rows.len() == 0 {
        None
    } else {
        let head = first_seen_of(rows.drop_last(), name);
        let row = rows.last();
        if row.full_name != name {
            head
        } else {
            match head {
                Some(ts) => if text_lt(row.ts, ts) {
                    Some(row.ts)
                } else {
                    head
                },
                None => Some(row.ts),
            }
        }
    }
}

/// The first creation date that a file gives for a repo.
pub open spec fn created_of(rows: Seq<SnapshotView>, name: Seq<char>) -> Option<Seq<char>>
    decreases rows.len(),
{
    if rows.len() == 0 {
        None
    } else {
        let head = created_of(rows.drop_last(), name);
        if head is None && rows.last().full_name == name {
            rows.last().created_at
        } else {
            head
        }
    }
}

/// Whether a tally says of its repo what the readings say.
pub open spec fn tallies(t: NameTally, rows: Seq<SnapshotView>) -> bool {
    &&& t.rows == count_of(rows, t.name@)
    &&& t.rows > 0
    &&& Some(t.first_seen@) == first_seen_of(rows, t.name@)
    &&& opt_text(t.created) == created_of(rows, t.name@)
}

/// Whether a list of tallies is in the order of the names, each name once.
pub open spec fn by_name(list: Seq<NameTally>) -> bool {
    forall|i: int, j: int|
        0 <= i < j < list.len() ==> text_lt(#[trigger] list[i].name@, #[trigger] list[j].name@)
}

/// Whether a list has a tally of a name.
pub open spec fn lists(list: Seq<NameTally>, name: Seq<char>) -> bool {
    exists|k: int| 0 <= k < list.len() && (#[trigger] list[k]).name@ == name
}

/// How many readings a list of tallies counts together.
pub open spec fn total(list: Seq<NameTally>) -> int
    decreases list.len(),
{
    if list.len() == 0 {
        0
    } else {
        total(list.drop_last()) + list.last().rows
    }
}

proof fn lemma_total_insert(list: Seq<NameTally>, at: int, t: NameTally)
    requires
        0 <= at <= list.len(),
    ensures
        total(list.insert(at, t)) == total(list) + t.rows,
    decreases list.len() - at,
{
    let all = list.insert(at, t);
    if at == list.len() {
        assert(all.drop_last() =~= list);
    } else {
        lemma_total_insert(list.drop_last(), at, t);
        assert(all.drop_last() =~= list.drop_last().insert(at, t));
    }
}

proof fn lemma_total_update(list: Seq<NameTally>, at: int, t: NameTally)
    requires
        0 <= at < list.len(),
    ensures
        total(list.update(at, t)) == total(list) + t.rows - list[at].rows,
    decreases list.len() - at,
{
    let all = list.update(at, t);
    if at == list.len() - 1 {
        assert(all.drop_last() =~= list.drop_last());
    } else {
        lemma_total_update(list.drop_last(), at, t);
        assert(all.drop_last() =~= list.drop_last().update(at, t));
    }
}

proof fn lemma_no_rows(rows: Seq<SnapshotView>, name: Seq<char>)
    requires
        count_of(rows, name) == 0,
    ensures
        first_seen_of(rows, name) is None,
        created_of(rows, name) is None,
    decreases rows.len(),
{
    if rows.len() > 0 {
        lemma_no_rows(rows.drop_last(), name);
    }
}

/// Where a name stands in a list, or would have to stand.
fn lower_bound(list: &Vec<NameTally>, name: &str) -> (r: usize)
    requires
        by_name(list@),
    ensures
        r <= list.len(),
        forall|k: int| 0 <= k < r ==> text_lt((#[trigger] list@[k]).name@, name@),
        forall|k: int| r <= k < list@.len() ==> !text_lt((#[trigger] list@[k]).name@, name@),
{
    let mut lo: usize = 0;
    let mut hi: usize = list.len();
    while lo < hi
        invariant
            lo <= hi <= list.len(),
            by_name(list@),
            forall|k: int| 0 <= k < lo ==> text_lt((#[trigger] list@[k]).name@, name@),
            forall|k: int| hi <= k < list@.len() ==> !text_lt((#[trigger] list@[k]).name@, name@),
        decreases hi - lo,
    {
        let mid = lo + (hi - lo) / 2;
        let ghost m = list@[mid as int].name@;
        if sorts_before(list[mid].name.as_str(), name) {
            assert forall|k: int| 0 <= k < mid + 1 implies text_lt(
                (#[trigger] list@[k]).name@,
                name@,
            ) by {
                if k < mid {
                    lemma_text_order_transitive(list@[k].name@, m, name@);
                }
            }
            lo = mid + 1;
        } else {
            assert forall|k: int| mid <= k < list@.len() implies !text_lt(
                (#[trigger] list@[k]).name@,
                name@,
            ) by {
                if k > mid && text_lt(list@[k].name@, name@) {
                    assert(text_lt(m, list@[k].name@));
                    lemma_text_order_transitive(m, list@[k].name@, name@);
                }
            }
            hi = mid;
        }
    }
    lo
}

proof fn lemma_bound_finds(list: Seq<NameTally>, name: Seq<char>, at: int)
    requires
        by_name(list),
        0 <= at <= list.len(),
        forall|k: int| 0 <= k < at ==> text_lt((#[trigger] list[k]).name@, name),
        forall|k: int| at <= k < list.len() ==> !text_lt((#[trigger] list[k]).name@, name),
    ensures
        forall|k: int|
            0 <= k < list.len() && (#[trigger] list[k]).name@ == name ==> k == at,
        at < list.len() && list[at].name@ != name ==> forall|k: int|
            at <= k < list.len() ==> text_lt(name, (#[trigger] list[k]).name@),
{
    assert forall|k: int| 0 <= k < list.len() && (#[trigger] list[k]).name@ == name implies k
        == at by {
        lemma_text_order_total(name, name);
        if k > at {
            assert(text_lt(list[at].name@, list[k].name@));
        }
    }
    if at < list.len() && list[at].name@ != name {
        assert forall|k: int| at <= k < list.len() implies text_lt(
            name,
            (#[trigger] list[k]).name@,
        ) by {
            lemma_text_order_total(name, list[at].name@);
            if k > at {
                lemma_text_order_transitive(name, list[at].name@, list[k].name@);
            }
        }
    }
}

fn count_row(list: &mut Vec<NameTally>, at: usize, row: &SnapshotRow)
    requires
        at < old(list).len(),
        old(list)@[at as int].rows < usize::MAX,
    ensures
        final(list)@.len() == old(list)@.len(),
        forall|k: int|
            0 <= k < old(list)@.len() && k != at ==> #[trigger] final(list)@[k] == old(list)@[k],
        final(list)@[at as int].name@ == old(list)@[at as int].name@,
        final(list)@[at as int].rows == old(list)@[at as int].rows + 1,
        final(list)@[at as int].first_seen@ == if text_lt(
            row.ts@,
            old(list)@[at as int].first_seen@,
        ) {
            row.ts@
        } else {
            old(list)@[at as int].first_seen@
        },
        opt_text(final(list)@[at as int].created) == if old(list)@[at as int].created is None {
            opt_text(row.created_at)
        } else {
            opt_text(old(list)@[at as int].created)
        },
{
    let was = &list[at];
    let first_seen = if sorts_before(row.ts.as_str(), was.first_seen.as_str()) {
        row.ts.clone()
    } else {
        was.first_seen.clone()
    };
    let created = if was.created.is_none() {
        clone_text(&row.created_at)
    } else {
        clone_text(&was.created)
    };
    let name = was.name.clone();
    let rows = was.rows + 1;
    list.set(at, NameTally { name, first_seen, created, rows });
}

/// The repos of a file, in the order of their names.
pub fn tally(rows: &Vec<SnapshotRow>) -> (r: Vec<NameTally>)
    ensures
        by_name(r@),
        forall|k: int| 0 <= k < r@.len() ==> tallies(#[trigger] r@[k], snapshot_views(rows@)),
        forall|name: Seq<char>| #[trigger]
            count_of(snapshot_views(rows@), name) > 0 ==> lists(r@, name),
        total(r@) == rows@.len(),
{
    let ghost all = snapshot_views(rows@);
    let mut list: Vec<NameTally> = Vec::new();
    let mut i: usize = 0;
    assert(all.take(0) =~= Seq::<SnapshotView>::empty());
    while i < rows.len()
        invariant
            i <= rows.len(),
            all == snapshot_views(rows@),
            by_name(list@),
            forall|k: int|
                0 <= k < list@.len() ==> tallies(#[trigger] list@[k], all.take(i as int)),
            forall|name: Seq<char>| #[trigger]
                count_of(all.take(i as int), name) > 0 ==> lists(list@, name),
            total(list@) == i,
        decreases rows.len() - i,
    {
        let row = &rows[i];
        let name = row.full_name.as_str();
        let ghost seen = all.take(i as int);
        let ghost next = all.take(i + 1);
        let ghost was = list@;
        proof {
            assert(next.drop_last() =~= seen);
            assert(next.last() == row@);
        }
        let at = lower_bound(&list, name);
        proof {
            lemma_bound_finds(list@, name@, at as int);
        }
        if at < list.len() && same(list[at].name.as_str(), name) {
            proof {
                lemma_total_bound(was, at as int);
            }
            count_row(&mut list, at, row);
            proof {
                lemma_total_update(was, at as int, list@[at as int]);
                assert(list@ =~= was.update(at as int, list@[at as int]));
                assert forall|k: int| 0 <= k < list@.len() implies tallies(
                    #[trigger] list@[k],
                    next,
                ) by {
                    assert(tallies(was[k], seen));
                    assert(list@[k].name@ == was[k].name@);
                }
                assert forall|n: Seq<char>| #[trigger] count_of(next, n) > 0 implies lists(
                    list@,
                    n,
                ) by {
                    if n == name@ {
                        assert(list@[at as int].name@ == n);
                    } else {
                        assert(count_of(seen, n) > 0);
                        let k = choose|k: int| 0 <= k < was.len() && (#[trigger] was[k]).name@ == n;
                        assert(list@[k].name@ == n);
                    }
                }
                assert forall|a: int, b: int| 0 <= a < b < list@.len() implies text_lt(
                    #[trigger] list@[a].name@,
                    #[trigger] list@[b].name@,
                ) by {
                    assert(list@[a].name@ == was[a].name@ && list@[b].name@ == was[b].name@);
                }
            }
        } else {
            proof {
                assert(!lists(was, name@));
                assert(count_of(seen, name@) == 0);
                lemma_no_rows(seen, name@);
            }
            let new = NameTally {
                name: row.full_name.clone(),
                first_seen: row.ts.clone(),
                created: clone_text(&row.created_at),
                rows: 1,
            };
            let ghost entry = new;
            list.insert(at, new);
            proof {
                lemma_total_insert(was, at as int, entry);
                assert forall|k: int| 0 <= k < list@.len() implies tallies(
                    #[trigger] list@[k],
                    next,
                ) by {
                    if k < at {
                        assert(list@[k] == was[k]);
                        assert(tallies(was[k], seen));
                    } else if k > at {
                        assert(list@[k] == was[k - 1]);
                        assert(tallies(was[k - 1], seen));
                    }
                }
                assert forall|n: Seq<char>| #[trigger] count_of(next, n) > 0 implies lists(
                    list@,
                    n,
                ) by {
                    if n == name@ {
                        assert(list@[at as int].name@ == n);
                    } else {
                        assert(count_of(seen, n) > 0);
                        let k = choose|k: int| 0 <= k < was.len() && (#[trigger] was[k]).name@ == n;
                        let moved = if k < at {
                            k
                        } else {
                            k + 1
                        };
                        assert(list@[moved] == was[k]);
                    }
                }
                assert forall|a: int, b: int| 0 <= a < b < list@.len() implies text_lt(
                    #[trigger] list@[a].name@,
                    #[trigger] list@[b].name@,
                ) by {
                    let x = if a < at {
                        a
                    } else {
                        a - 1
                    };
                    let y = if b < at {
                        b
                    } else {
                        b - 1
                    };
                    if a == at {
                        assert(list@[b] == was[y]);
                    } else if b == at {
                        assert(list@[a] == was[x]);
                    } else {
                        assert(list@[a] == was[x] && list@[b] == was[y]);
                    }
                }
            }
        }
        i += 1;
    }
    assert(all.take(i as int) =~= all);
    list
}

proof fn lemma_total_bound(list: Seq<NameTally>, at: int)
    requires
        0 <= at < list.len(),
    ensures
        0 <= list[at].rows <= total(list),
    decreases list.len(),
{
    if at < list.len() - 1 {
        lemma_total_bound(list.drop_last(), at);
    } else {
        lemma_total_nonnegative(list.drop_last());
    }
}

proof fn lemma_total_nonnegative(list: Seq<NameTally>)
    ensures
        total(list) >= 0,
    decreases list.len(),
{
    if list.len() > 0 {
        lemma_total_nonnegative(list.drop_last());
    }
}

// ---------------------------------------------------------------- what gets written

/// What a name of a file turned out to be.
#[derive(Debug, Clone, PartialEq, Eq)]
pub enum Resolution {
    /// A repo that already has a row.
    Known(i64),
    /// A repo that GitHub described.
    Fetched { id: i64, full_name: String, created_at: String },
    /// A repo that is no longer visible.
    Missing,
    /// A repo whose maintainer asked us to stop: it gets neither a row nor a reading.
    OptedOut,
}

/// The id that a name resolved to.
pub open spec fn resolved_id(r: Resolution) -> Option<int> {
    match r {
        Resolution::Known(id) => Some(id as int),
        Resolution::Fetched { id, .. } => Some(id as int),
        Resolution::Missing => None,
        Resolution::OptedOut => None,
    }
}

impl Resolution {
    pub fn id(&self) -> (r: Option<i64>)
        ensures
            opt_number(r) == resolved_id(*self),
    {
        match self {
            Resolution::Known(id) => Some(*id),
            Resolution::Fetched { id, .. } => Some(*id),
            Resolution::Missing => None,
            Resolution::OptedOut => None,
        }
    }
}

/// What a name counts as once its id was looked up. The numeric id is what decides, because a
/// rename can hide an opted-out repo behind another name, and a lookup that failed counts as
/// an opt-out.
pub open spec fn admission(found: Resolution, opted_out: Option<bool>) -> Resolution {
    if resolved_id(found) is Some && opted_out != Some(false) {
        Resolution::OptedOut
    } else {
        found
    }
}

/// What a name counts as once its id was looked up; `None` where the lookup failed. Nothing is
/// collected for a repo that opted out, and an import asks like every other lane.
pub fn admitted(found: Resolution, opted_out: Option<bool>) -> (r: Resolution)
    ensures
        r == admission(found, opted_out),
{
    let clear = match opted_out {
        Some(out) => !out,
        None => false,
    };
    if found.id().is_some() && !clear {
        Resolution::OptedOut
    } else {
        found
    }
}

/// The row of a repo that a file brings.
#[derive(Debug, Clone, PartialEq, Eq)]
pub struct Upsert {
    pub id: i64,
    pub full_name: String,
    pub enrolled_at: String,
    pub created_at: Option<String>,
}

/// What the row of a repo says.
pub struct UpsertView {
    pub id: int,
    pub full_name: Seq<char>,
    pub enrolled_at: Seq<char>,
    pub created_at: Option<Seq<char>>,
}

impl View for Upsert {
    type V = UpsertView;

    open spec fn view(&self) -> UpsertView {
        UpsertView {
            id: self.id as int,
            full_name: self.full_name@,
            enrolled_at: self.enrolled_at@,
            created_at: opt_text(self.created_at),
        }
    }
}

/// Every row of a list.
pub open spec fn upsert_views(v: Seq<Upsert>) -> Seq<UpsertView> {
    v.map_values(|u: Upsert| u@)
}

/// The row that a resolved name gets: GitHub's name and date where it was asked, the file's
/// where it was not.
pub open spec fn upsert_of(t: NameTally, r: Resolution) -> Option<UpsertView> {
    match r {
        Resolution::Known(id) => Some(
            UpsertView {
                id: id as int,
                full_name: t.name@,
                enrolled_at: t.first_seen@,
                created_at: opt_text(t.created),
            },
        ),
        Resolution::Fetched { id, full_name, created_at } => Some(
            UpsertView {
                id: id as int,
                full_name: full_name@,
                enrolled_at: t.first_seen@,
                created_at: Some(created_at@),
            },
        ),
        Resolution::Missing => None,
        Resolution::OptedOut => None,
    }
}

/// The rows of all names that resolved, in the order of the names.
pub open spec fn upserts_of(names: Seq<NameTally>, found: Seq<Resolution>) -> Seq<UpsertView>
    decreases names.len(),
{
    if names.len() == 0 {
        Seq::empty()
    } else {
        let head = upserts_of(names.drop_last(), found.drop_last());
        match upsert_of(names.last(), found.last()) {
            Some(row) => head.push(row),
            None => head,
        }
    }
}

/// The rows of all names that resolved, in the order of the names.
pub fn upserts(names: &Vec<NameTally>, found: &Vec<Resolution>) -> (r: Vec<Upsert>)
    requires
        names.len() == found.len(),
    ensures
        upsert_views(r@) == upserts_of(names@, found@),
{
    let mut out: Vec<Upsert> = Vec::new();
    let mut i: usize = 0;
    assert(names@.take(0) =~= Seq::<NameTally>::empty());
    assert(upsert_views(out@) =~= Seq::<UpsertView>::empty());
    while i < names.len()
        invariant
            i <= names.len(),
            names.len() == found.len(),
            upsert_views(out@) == upserts_of(names@.take(i as int), found@.take(i as int)),
        decreases names.len() - i,
    {
        assert(names@.take(i + 1).drop_last() =~= names@.take(i as int));
        assert(found@.take(i + 1).drop_last() =~= found@.take(i as int));
        assert(names@.take(i + 1).last() == names@[i as int]);
        assert(found@.take(i + 1).last() == found@[i as int]);
        let t = &names[i];
        let ghost was = out@;
        let row = match &found[i] {
            Resolution::Known(id) => Some(
                Upsert {
                    id: *id,
                    full_name: t.name.clone(),
                    enrolled_at: t.first_seen.clone(),
                    created_at: clone_text(&t.created),
                },
            ),
            Resolution::Fetched { id, full_name, created_at } => Some(
                Upsert {
                    id: *id,
                    full_name: full_name.clone(),
                    enrolled_at: t.first_seen.clone(),
                    created_at: Some(created_at.clone()),
                },
            ),
            Resolution::Missing => None,
            Resolution::OptedOut => None,
        };
        if let Some(row) = row {
            out.push(row);
            assert(upsert_views(out@) =~= upsert_views(was).push(row@));
        }
        i += 1;
    }
    assert(names@.take(i as int) =~= names@);
    assert(found@.take(i as int) =~= found@);
    out
}

/// The id that a name of a file resolved to.
pub open spec fn id_for(names: Seq<NameTally>, found: Seq<Resolution>, name: Seq<char>) -> Option<
    int,
>
    decreases names.len(),
{
    if names.len() == 0 {
        None
    } else if names.last().name@ == name {
        resolved_id(found.last())
    } else {
        id_for(names.drop_last(), found.drop_last(), name)
    }
}

proof fn lemma_id_for(names: Seq<NameTally>, found: Seq<Resolution>, name: Seq<char>)
    requires
        names.len() == found.len(),
        by_name(names),
    ensures
        forall|k: int|
            0 <= k < names.len() && (#[trigger] names[k]).name@ == name ==> id_for(
                names,
                found,
                name,
            ) == resolved_id(found[k]),
        !lists(names, name) ==> id_for(names, found, name) is None,
    decreases names.len(),
{
    if names.len() > 0 {
        let n = names.len() - 1;
        lemma_id_for(names.drop_last(), found.drop_last(), name);
        assert forall|k: int| 0 <= k < names.len() && (#[trigger] names[k]).name@
            == name implies id_for(names, found, name) == resolved_id(found[k]) by {
            lemma_text_order_total(name, name);
            if k < n {
                assert(names.drop_last()[k].name@ == name);
                assert(text_lt(names[k].name@, names[n].name@));
            }
        }
        if !lists(names, name) {
            assert(names[n].name@ != name);
            if lists(names.drop_last(), name) {
                let k = choose|k: int|
                    0 <= k < n && (#[trigger] names.drop_last()[k]).name@ == name;
                assert(names[k].name@ == name);
            }
        }
    }
}

/// How many places of a list of ids are empty.
pub open spec fn missing_in(ids: Seq<Option<i64>>) -> nat
    decreases ids.len(),
{
    if ids.len() == 0 {
        0
    } else {
        missing_in(ids.drop_last()) + (if ids.last() is None {
            1nat
        } else {
            0
        })
    }
}

/// The id that each reading of a file is written under; `None` for one that is skipped because
/// its repo is no longer visible, or opted out.
pub fn append_ids(
    rows: &Vec<SnapshotRow>,
    names: &Vec<NameTally>,
    found: &Vec<Resolution>,
) -> (r: Vec<Option<i64>>)
    requires
        names.len() == found.len(),
        by_name(names@),
    ensures
        r@.len() == rows@.len(),
        forall|k: int|
            0 <= k < rows@.len() ==> opt_number(#[trigger] r@[k]) == id_for(
                names@,
                found@,
                rows@[k].full_name@,
            ),
        missing_in(r@) == skipped_in(snapshot_views(rows@), names@, found@),
{
    let ghost all = snapshot_views(rows@);
    let mut out: Vec<Option<i64>> = Vec::new();
    let mut i: usize = 0;
    assert(all.take(0) =~= Seq::<SnapshotView>::empty());
    while i < rows.len()
        invariant
            i <= rows.len(),
            names.len() == found.len(),
            by_name(names@),
            out@.len() == i,
            forall|k: int|
                0 <= k < i ==> opt_number(#[trigger] out@[k]) == id_for(
                    names@,
                    found@,
                    rows@[k].full_name@,
                ),
            all == snapshot_views(rows@),
            missing_in(out@) == skipped_in(all.take(i as int), names@, found@),
        decreases rows.len() - i,
    {
        let ghost was = out@;
        let name = rows[i].full_name.as_str();
        let at = lower_bound(names, name);
        proof {
            lemma_bound_finds(names@, name@, at as int);
            lemma_id_for(names@, found@, name@);
        }
        if at < names.len() && same(names[at].name.as_str(), name) {
            out.push(found[at].id());
        } else {
            assert(!lists(names@, name@));
            out.push(None);
        }
        assert(out@.drop_last() =~= was);
        assert(all.take(i + 1).drop_last() =~= all.take(i as int));
        assert(all.take(i + 1).last().full_name == name@);
        i += 1;
    }
    assert(all.take(i as int) =~= all);
    out
}

/// How many readings of a list are skipped.
pub open spec fn skipped_in(
    rows: Seq<SnapshotView>,
    names: Seq<NameTally>,
    found: Seq<Resolution>,
) -> nat
    decreases rows.len(),
{
    if rows.len() == 0 {
        0
    } else {
        skipped_in(rows.drop_last(), names, found) + (if id_for(
            names,
            found,
            rows.last().full_name,
        ) is None {
            1nat
        } else {
            0
        })
    }
}

/// How many readings the repos have that are no longer visible.
pub open spec fn dropped_rows(names: Seq<NameTally>, found: Seq<Resolution>) -> int
    decreases names.len(),
{
    if names.len() == 0 {
        0
    } else {
        dropped_rows(names.drop_last(), found.drop_last()) + (if found.last() is Missing {
            names.last().rows as int
        } else {
            0
        })
    }
}

/// How many readings the repos have that opted out.
pub open spec fn withheld_rows(names: Seq<NameTally>, found: Seq<Resolution>) -> int
    decreases names.len(),
{
    if names.len() == 0 {
        0
    } else {
        withheld_rows(names.drop_last(), found.drop_last()) + (if found.last() is OptedOut {
            names.last().rows as int
        } else {
            0
        })
    }
}

/// How many readings of a list the repos have that resolved to no id.
spec fn lost_in(rows: Seq<SnapshotView>, names: Seq<NameTally>, found: Seq<Resolution>) -> int
    decreases names.len(),
{
    if names.len() == 0 {
        0
    } else {
        lost_in(rows, names.drop_last(), found.drop_last()) + (if resolved_id(found.last()) is None {
            count_of(rows, names.last().name@) as int
        } else {
            0
        })
    }
}

proof fn lemma_lost_step(
    rows: Seq<SnapshotView>,
    names: Seq<NameTally>,
    found: Seq<Resolution>,
)
    requires
        rows.len() > 0,
        names.len() == found.len(),
        by_name(names),
    ensures
        lost_in(rows, names, found) == lost_in(rows.drop_last(), names, found) + (if lists(
            names,
            rows.last().full_name,
        ) && id_for(names, found, rows.last().full_name) is None {
            1int
        } else {
            0
        }),
    decreases names.len(),
{
    let name = rows.last().full_name;
    if names.len() > 0 {
        let n = names.len() - 1;
        let rest = names.drop_last();
        lemma_lost_step(rows, rest, found.drop_last());
        if names[n].name@ == name {
            if lists(rest, name) {
                let k = choose|k: int| 0 <= k < n && (#[trigger] rest[k]).name@ == name;
                lemma_text_order_total(name, name);
                assert(text_lt(names[k].name@, names[n].name@));
            }
            assert(lists(names, name));
        } else {
            if lists(names, name) {
                let k = choose|k: int| 0 <= k < names.len() && (#[trigger] names[k]).name@ == name;
                assert(rest[k].name@ == name);
            }
            if lists(rest, name) {
                let k = choose|k: int| 0 <= k < n && (#[trigger] rest[k]).name@ == name;
                assert(names[k].name@ == name);
            }
        }
    }
}

proof fn lemma_lost_is_skipped(
    rows: Seq<SnapshotView>,
    names: Seq<NameTally>,
    found: Seq<Resolution>,
)
    requires
        names.len() == found.len(),
        by_name(names),
        forall|k: int| 0 <= k < rows.len() ==> lists(names, (#[trigger] rows[k]).full_name),
    ensures
        lost_in(rows, names, found) == skipped_in(rows, names, found),
    decreases rows.len(),
{
    if rows.len() > 0 {
        assert forall|k: int| 0 <= k < rows.len() - 1 implies lists(
            names,
            (#[trigger] rows.drop_last()[k]).full_name,
        ) by {
            assert(rows[k] == rows.drop_last()[k]);
        }
        assert(lists(names, rows[rows.len() - 1].full_name));
        lemma_lost_is_skipped(rows.drop_last(), names, found);
        lemma_lost_step(rows, names, found);
    } else {
        lemma_nothing_lost(rows, names, found);
    }
}

proof fn lemma_nothing_lost(
    rows: Seq<SnapshotView>,
    names: Seq<NameTally>,
    found: Seq<Resolution>,
)
    requires
        rows.len() == 0,
        names.len() == found.len(),
    ensures
        lost_in(rows, names, found) == 0,
    decreases names.len(),
{
    if names.len() > 0 {
        lemma_nothing_lost(rows, names.drop_last(), found.drop_last());
    }
}

proof fn lemma_dropped_is_lost(
    rows: Seq<SnapshotView>,
    names: Seq<NameTally>,
    found: Seq<Resolution>,
)
    requires
        names.len() == found.len(),
        forall|k: int| 0 <= k < names.len() ==> tallies(#[trigger] names[k], rows),
    ensures
        dropped_rows(names, found) + withheld_rows(names, found) == lost_in(rows, names, found),
    decreases names.len(),
{
    if names.len() > 0 {
        assert forall|k: int| 0 <= k < names.len() - 1 implies tallies(
            #[trigger] names.drop_last()[k],
            rows,
        ) by {
            assert(names[k] == names.drop_last()[k]);
        }
        assert(tallies(names[names.len() - 1], rows));
        lemma_dropped_is_lost(rows, names.drop_last(), found.drop_last());
    }
}

proof fn lemma_counted_when_there(rows: Seq<SnapshotView>, k: int)
    requires
        0 <= k < rows.len(),
    ensures
        count_of(rows, rows[k].full_name) > 0,
    decreases rows.len(),
{
    if k < rows.len() - 1 {
        lemma_counted_when_there(rows.drop_last(), k);
    }
}

/// The readings that an import skips are exactly those of the repos that it reports as no
/// longer visible and of those that opted out.
pub proof fn law_only_invisible_repos_are_skipped(
    rows: Seq<SnapshotView>,
    names: Seq<NameTally>,
    found: Seq<Resolution>,
)
    requires
        names.len() == found.len(),
        by_name(names),
        forall|k: int| 0 <= k < names.len() ==> tallies(#[trigger] names[k], rows),
        forall|name: Seq<char>| #[trigger] count_of(rows, name) > 0 ==> lists(names, name),
    ensures
        dropped_rows(names, found) + withheld_rows(names, found) == skipped_in(rows, names, found),
{
    assert forall|k: int| 0 <= k < rows.len() implies lists(
        names,
        (#[trigger] rows[k]).full_name,
    ) by {
        lemma_counted_when_there(rows, k);
    }
    lemma_lost_is_skipped(rows, names, found);
    lemma_dropped_is_lost(rows, names, found);
}

/// An import collects nothing for a repo that opted out, under whatever name a file has it: no
/// row and no reading is written under an id that a lookup did not clear, and a lookup clears
/// no id that opted out.
pub proof fn law_imports_leave_opted_out_repos_alone(
    names: Seq<NameTally>,
    resolved: Seq<Resolution>,
    lookups: Seq<Option<bool>>,
    found: Seq<Resolution>,
    opted_out: Set<int>,
)
    requires
        names.len() == resolved.len() == lookups.len() == found.len(),
        forall|k: int|
            0 <= k < found.len() ==> #[trigger] found[k] == admission(resolved[k], lookups[k]),
        forall|k: int|
            0 <= k < found.len() && resolved_id(#[trigger] resolved[k]) is Some && lookups[k] == Some(
                false,
            ) ==> !opted_out.contains(resolved_id(resolved[k])->0),
    ensures
        forall|k: int|
            0 <= k < upserts_of(names, found).len() ==> !opted_out.contains(
                (#[trigger] upserts_of(names, found)[k]).id,
            ),
        forall|name: Seq<char>|
            #[trigger] id_for(names, found, name) matches Some(id) ==> !opted_out.contains(id),
    decreases names.len(),
{
    if names.len() > 0 {
        let n = names.len() - 1;
        let head = upserts_of(names.drop_last(), found.drop_last());
        assert forall|k: int| 0 <= k < n implies #[trigger] found.drop_last()[k] == admission(
            resolved.drop_last()[k],
            lookups.drop_last()[k],
        ) by {
            assert(found[k] == admission(resolved[k], lookups[k]));
        }
        assert forall|k: int|
            0 <= k < n && resolved_id(#[trigger] resolved.drop_last()[k]) is Some
                && lookups.drop_last()[k] == Some(false) implies !opted_out.contains(
            resolved_id(resolved.drop_last()[k])->0,
        ) by {
            assert(!opted_out.contains(resolved_id(resolved[k])->0));
        }
        law_imports_leave_opted_out_repos_alone(
            names.drop_last(),
            resolved.drop_last(),
            lookups.drop_last(),
            found.drop_last(),
            opted_out,
        );
        assert(found[n] == admission(resolved[n], lookups[n]));
        assert(resolved_id(resolved[n]) is Some && lookups[n] == Some(false)
            ==> !opted_out.contains(resolved_id(resolved[n])->0));
        assert forall|k: int| 0 <= k < upserts_of(names, found).len() implies !opted_out.contains(
            (#[trigger] upserts_of(names, found)[k]).id,
        ) by {
            if k < head.len() {
                assert(upserts_of(names, found)[k] == head[k]);
            }
        }
        assert forall|name: Seq<char>| #[trigger]
            id_for(names, found, name) matches Some(id) ==> !opted_out.contains(id) by {
            if names.last().name@ != name {
                let earlier = id_for(names.drop_last(), found.drop_last(), name);
                assert(earlier matches Some(id) ==> !opted_out.contains(id));
            }
        }
    }
}

// ---------------------------------------------------------------- links

/// The repo that a name of a monthly count is linked to: the tracked one of that name, the one
/// with the smallest id where there are several. A name that no tracked repo has
/// stays the only key of its counts.
pub open spec fn is_link(repos: Seq<(i64, String)>, name: Seq<char>, link: Option<int>) -> bool {
    match link {
        Some(id) => {
            &&& exists|k: int|
                0 <= k < repos.len() && (#[trigger] repos[k]).0 == id && repos[k].1@ == name
            &&& forall|k: int|
                0 <= k < repos.len() && (#[trigger] repos[k]).1@ == name ==> id <= repos[k].0
        },
        None => forall|k: int| 0 <= k < repos.len() ==> (#[trigger] repos[k]).1@ != name,
    }
}

/// The repo that a name of a monthly count is linked to, out of the ids and names that are
/// tracked.
pub fn linked_id(repos: &Vec<(i64, String)>, full_name: &str) -> (r: Option<i64>)
    ensures
        is_link(repos@, full_name@, opt_number(r)),
{
    let mut link: Option<i64> = None;
    let mut i: usize = 0;
    assert(repos@.take(0) =~= Seq::<(i64, String)>::empty());
    while i < repos.len()
        invariant
            i <= repos.len(),
            is_link(repos@.take(i as int), full_name@, opt_number(link)),
        decreases repos.len() - i,
    {
        let ghost seen = repos@.take(i as int);
        let ghost next = repos@.take(i + 1);
        let ghost was = link;
        assert(forall|k: int| 0 <= k < i ==> #[trigger] next[k] == seen[k]);
        assert(next[i as int] == repos@[i as int]);
        if same(repos[i].1.as_str(), full_name) {
            let id = repos[i].0;
            link = match link {
                Some(least) => if least <= id {
                    Some(least)
                } else {
                    Some(id)
                },
                None => Some(id),
            };
        }
        proof {
            if let Some(id) = was {
                let k = choose|k: int|
                    0 <= k < seen.len() && (#[trigger] seen[k]).0 == id && seen[k].1@ == full_name@;
                assert(next[k].0 == id && next[k].1@ == full_name@);
                assert forall|k: int|
                    0 <= k < i && (#[trigger] next[k]).1@ == full_name@ implies id <= next[k].0 by {
                    assert(seen[k].1@ == full_name@);
                }
            } else {
                assert forall|k: int| 0 <= k < i implies (#[trigger] next[k]).1@ != full_name@ by {
                    assert(seen[k].1@ != full_name@);
                }
            }
        }
        i += 1;
    }
    assert(repos@.take(i as int) =~= repos@);
    link
}

// ---------------------------------------------------------------- reports

/// How many names of a file were already known.
pub open spec fn known_count(found: Seq<Resolution>) -> nat
    decreases found.len(),
{
    if found.len() == 0 {
        0
    } else {
        known_count(found.drop_last()) + (if found.last() is Known {
            1nat
        } else {
            0
        })
    }
}

/// How many names of a file GitHub described.
pub open spec fn fetched_count(found: Seq<Resolution>) -> nat
    decreases found.len(),
{
    if found.len() == 0 {
        0
    } else {
        fetched_count(found.drop_last()) + (if found.last() is Fetched {
            1nat
        } else {
            0
        })
    }
}

/// The lines that name the repos that are no longer visible.
pub open spec fn missing_lines(names: Seq<NameTally>, found: Seq<Resolution>) -> Seq<Seq<char>>
    decreases names.len(),
{
    if names.len() == 0 {
        Seq::empty()
    } else {
        let head = missing_lines(names.drop_last(), found.drop_last());
        if found.last() is Missing {
            head.push(
                "  "@ + names.last().name@ + " ("@ + counted(names.last().rows as nat, "row"@)
                    + ")"@,
            )
        } else {
            head
        }
    }
}

/// What an import says about the names of a file.
pub open spec fn names_report(
    rows: nat,
    names: Seq<NameTally>,
    found: Seq<Resolution>,
) -> Seq<Seq<char>> {
    let gone = missing_lines(names, found);
    let first = counted(rows, "data row"@) + ", "@ + counted(names.len(), "distinct repo"@) + ": "@
        + decimal(known_count(found)) + " already in the store, "@ + decimal(fetched_count(found))
        + " resolved via the API"@;
    if gone.len() == 0 {
        seq![first]
    } else {
        seq![
            first,
            counted(gone.len(), "repo"@) + " no longer visible to the API, "@ + counted(
                dropped_rows(names, found) as nat,
                "row"@,
            ) + " skipped:"@,
        ] + gone
    }
}

/// A list of texts.
pub open spec fn string_views(v: Seq<String>) -> Seq<Seq<char>> {
    v.map_values(|s: String| s@)
}

proof fn lemma_dropped_bound(names: Seq<NameTally>, found: Seq<Resolution>)
    requires
        names.len() == found.len(),
    ensures
        0 <= dropped_rows(names, found) <= total(names),
    decreases names.len(),
{
    if names.len() > 0 {
        lemma_dropped_bound(names.drop_last(), found.drop_last());
    }
}

/// What an import says about the names of a file.
pub fn report_names(rows: usize, names: &Vec<NameTally>, found: &Vec<Resolution>) -> (r: Vec<
    String,
>)
    requires
        names.len() == found.len(),
        total(names@) <= rows,
    ensures
        string_views(r@) == names_report(rows as nat, names@, found@),
{
    let mut known: usize = 0;
    let mut fetched: usize = 0;
    let mut dropped: usize = 0;
    let mut gone: Vec<String> = Vec::new();
    let mut i: usize = 0;
    assert(names@.take(0) =~= Seq::<NameTally>::empty());
    assert(found@.take(0) =~= Seq::<Resolution>::empty());
    assert(string_views(gone@) =~= Seq::<Seq<char>>::empty());
    while i < names.len()
        invariant
            i <= names.len(),
            names.len() == found.len(),
            total(names@) <= rows,
            known <= i,
            fetched <= i,
            known == known_count(found@.take(i as int)),
            fetched == fetched_count(found@.take(i as int)),
            dropped == dropped_rows(names@.take(i as int), found@.take(i as int)),
            string_views(gone@) == missing_lines(names@.take(i as int), found@.take(i as int)),
        decreases names.len() - i,
    {
        proof {
            assert(names@.take(i + 1).drop_last() =~= names@.take(i as int));
            assert(found@.take(i + 1).drop_last() =~= found@.take(i as int));
            assert(names@.take(i + 1).last() == names@[i as int]);
            assert(found@.take(i + 1).last() == found@[i as int]);
            lemma_dropped_bound(names@.take(i + 1), found@.take(i + 1));
            lemma_total_prefix(names@, i + 1);
        }
        let ghost was = gone@;
        match &found[i] {
            Resolution::Known(_) => known += 1,
            Resolution::Fetched { .. } => fetched += 1,
            Resolution::OptedOut => {},
            Resolution::Missing => {
                dropped += names[i].rows;
                let mut line = "  ".to_owned();
                line.append(names[i].name.as_str());
                line.append(" (");
                line.append(plural(names[i].rows, "row").as_str());
                line.append(")");
                gone.push(line);
                assert(string_views(gone@) =~= string_views(was).push(line@));
            },
        }
        i += 1;
    }
    assert(names@.take(i as int) =~= names@);
    assert(found@.take(i as int) =~= found@);
    let mut first = plural(rows, "data row");
    first.append(", ");
    first.append(plural(names.len(), "distinct repo").as_str());
    first.append(": ");
    push_decimal(&mut first, known as u128);
    first.append(" already in the store, ");
    push_decimal(&mut first, fetched as u128);
    first.append(" resolved via the API");
    let mut out: Vec<String> = Vec::new();
    out.push(first);
    if gone.len() == 0 {
        assert(string_views(out@) =~= names_report(rows as nat, names@, found@));
        return out;
    }
    let mut second = plural(gone.len(), "repo");
    second.append(" no longer visible to the API, ");
    second.append(plural(dropped, "row").as_str());
    second.append(" skipped:");
    let ghost lines = string_views(gone@);
    out.push(second);
    let ghost head = string_views(out@);
    out.append(&mut gone);
    assert(string_views(out@) =~= head + lines);
    assert(head =~= seq![first@, second@]);
    out
}

proof fn lemma_total_prefix(list: Seq<NameTally>, n: int)
    requires
        0 <= n <= list.len(),
    ensures
        total(list.take(n)) <= total(list),
    decreases list.len() - n,
{
    if n < list.len() {
        assert(list.take(n + 1).drop_last() =~= list.take(n));
        lemma_total_prefix(list, n + 1);
    } else {
        assert(list.take(n) =~= list);
    }
}

/// What an import says about the readings of a file, which were to be written under these ids,
/// and of which so many were new.
pub fn report_rows(ids: &Vec<Option<i64>>, appended: usize) -> (r: String)
    requires
        appended + missing_in(ids@) <= ids.len(),
    ensures
        r@ == counted(appended as nat, "snapshot row"@) + " appended, "@ + decimal(
            (ids.len() - appended - missing_in(ids@)) as nat,
        ) + " already present, "@ + decimal(missing_in(ids@)) + " skipped"@,
{
    let mut skipped: usize = 0;
    let mut i: usize = 0;
    assert(ids@.take(0) =~= Seq::<Option<i64>>::empty());
    while i < ids.len()
        invariant
            i <= ids.len(),
            skipped <= i,
            skipped == missing_in(ids@.take(i as int)),
        decreases ids.len() - i,
    {
        assert(ids@.take(i + 1).drop_last() =~= ids@.take(i as int));
        if ids[i].is_none() {
            skipped += 1;
        }
        i += 1;
    }
    assert(ids@.take(i as int) =~= ids@);
    let mut out = plural(appended, "snapshot row");
    out.append(" appended, ");
    push_decimal(&mut out, (ids.len() - appended - skipped) as u128);
    out.append(" already present, ");
    push_decimal(&mut out, skipped as u128);
    out.append(" skipped");
    out
}

/// What is said while names are resolved: every fifty of them.
pub fn resolving_progress(done: usize, all: usize) -> (r: Option<String>)
    ensures
        match r {
            Some(line) => done % 50 == 0 && line@ == "  "@ + decimal(done as nat) + "/"@ + decimal(
                all as nat,
            ),
            None => done % 50 != 0,
        },
{
    if done % 50 == 0 {
        let mut out = "  ".to_owned();
        push_decimal(&mut out, done as u128);
        out.append("/");
        push_decimal(&mut out, all as u128);
        Some(out)
    } else {
        None
    }
}

/// How far the reading of a file of monthly counts has come.
#[derive(Debug, Clone, Copy, PartialEq, Eq)]
pub struct Prehistory {
    /// Lines taken in, blank ones too.
    pub lines: usize,
    /// Lines that held a row.
    pub read: usize,
    /// Rows that were new.
    pub appended: usize,
}

impl Prehistory {
    pub open spec fn wf(self) -> bool {
        self.appended <= self.read <= self.lines
    }

    pub fn start() -> (r: Prehistory)
        ensures
            r.wf(),
            r.lines == 0,
            r.read == 0,
            r.appended == 0,
    {
        Prehistory { lines: 0, read: 0, appended: 0 }
    }

    /// Takes in the next line, and gives the row to write, if it holds one. A line that cannot
    /// be read is named by its number, counted from one.
    pub fn line<'a>(&mut self, line: &'a str) -> (r: Result<
        Option<PrehistoryRow<'a>>,
        (usize, LineError),
    >)
        requires
            old(self).wf(),
            old(self).lines < usize::MAX,
        ensures
            final(self).wf(),
            final(self).lines == old(self).lines + 1,
            final(self).appended == old(self).appended,
            match prehistory_of(line@) {
                Ok(Some(row)) => final(self).read == old(self).read + 1 && (r matches Ok(Some(said))
                    && said.says() == row),
                Ok(None) => final(self).read == old(self).read && r matches Ok(None),
                Err(fault) => final(self).read == old(self).read && (r matches Err((at, error))
                    && at == final(self).lines && error@ == fault),
            },
    {
        self.lines = self.lines + 1;
        match parse_prehistory_line(line) {
            Ok(Some(row)) => {
                self.read = self.read + 1;
                Ok(Some(row))
            },
            Ok(None) => Ok(None),
            Err(error) => Err((self.lines, error)),
        }
    }

    /// Counts a row that was written, if it was new.
    pub fn wrote(&mut self, new: bool)
        requires
            old(self).wf(),
            old(self).appended < old(self).read,
        ensures
            final(self).wf(),
            final(self).lines == old(self).lines,
            final(self).read == old(self).read,
            final(self).appended == old(self).appended + (if new {
                1int
            } else {
                0
            }),
    {
        if new {
            self.appended = self.appended + 1;
        }
    }

    /// What is said between two batches: the batch that passed a million says so.
    pub fn progress(&self, eof: bool) -> (r: Option<String>)
        ensures
            match r {
                Some(line) => self.read > 0 && self.read % 1_000_000 < PREHISTORY_BATCH && !eof
                    && line@ == "  "@ + decimal(self.read as nat) + " rows"@,
                None => self.read == 0 || self.read % 1_000_000 >= PREHISTORY_BATCH || eof,
            },
    {
        if self.read > 0 && self.read % 1_000_000 < PREHISTORY_BATCH && !eof {
            let mut out = "  ".to_owned();
            push_decimal(&mut out, self.read as u128);
            out.append(" rows");
            Some(out)
        } else {
            None
        }
    }

    /// What is said of the file once it is read.
    pub fn report(&self) -> (r: String)
        requires
            self.wf(),
        ensures
            r@ == counted(self.read as nat, "data row"@) + ", "@ + decimal(self.appended as nat)
                + " appended, "@ + decimal((self.read - self.appended) as nat)
                + " already present"@,
    {
        let mut out = plural(self.read, "data row");
        out.append(", ");
        push_decimal(&mut out, self.appended as u128);
        out.append(" appended, ");
        push_decimal(&mut out, (self.read - self.appended) as u128);
        out.append(" already present");
        out
    }
}

/// What is said of the capture table of a manifest.
pub fn report_ratios(ratios: usize, manifest: &str) -> (r: String)
    ensures
        r@ == counted(ratios as nat, "capture ratio"@) + " from "@ + manifest@,
{
    let mut out = plural(ratios, "capture ratio");
    out.append(" from ");
    out.append(manifest);
    out
}

// ---------------------------------------------------------------- what a file comes to

/// Whether a field is empty but for white space, or an integer.
pub open spec fn empty_or_number(field: Seq<char>) -> bool {
    trimmed(field).len() == 0 || integer_value(trimmed(field)) is Some
}

/// A line of readings has four fields or seven. It is taken exactly where the moment, the repo
/// and an integer for its stars are there and the other two counts are integers or empty, and it
/// says what its fields say; what a field does not have, the reading does not have.
pub proof fn law_a_line_says_what_its_fields_say(f: Seq<Seq<char>>)
    ensures
        snapshot_in(f) is Ok <==> {
            &&& f.len() == 4 || f.len() == 7
            &&& trimmed(f[0]).len() > 0
            &&& trimmed(f[1]).len() > 0
            &&& trimmed(f[2]).len() > 0
            &&& integer_value(trimmed(f[2])) is Some
            &&& f.len() == 7 ==> empty_or_number(f[4]) && empty_or_number(f[5])
        },
        snapshot_in(f) matches Ok(row) ==> {
            &&& row.ts == trimmed(f[0])
            &&& row.full_name == trimmed(f[1])
            &&& integer_value(trimmed(f[2])) == Some(row.stars)
            &&& trimmed(f[3]).len() > 0 ==> row.created_at == Some(trimmed(f[3]))
            &&& trimmed(f[3]).len() == 0 ==> row.created_at is None
            &&& f.len() == 4 ==> row.forks is None && row.open_issues is None && row.pushed_at is None
            &&& f.len() == 7 ==> {
                &&& row.forks == (if trimmed(f[4]).len() > 0 {
                    integer_value(trimmed(f[4]))
                } else {
                    None
                })
                &&& row.open_issues == (if trimmed(f[5]).len() > 0 {
                    integer_value(trimmed(f[5]))
                } else {
                    None
                })
                &&& trimmed(f[6]).len() > 0 ==> row.pushed_at == Some(trimmed(f[6]))
                &&& trimmed(f[6]).len() == 0 ==> row.pushed_at is None
            }
        },
{
}

/// Whether a text can stand in a field as it is: there is something to it, no white space at its
/// ends, and neither a tab nor the end of a line in it.
pub open spec fn plain_field(s: Seq<char>) -> bool {
    &&& s.len() > 0
    &&& !CharClass::Space.holds(s[0])
    &&& !CharClass::Space.holds(s.last())
    &&& forall|i: int|
        0 <= i < s.len() ==> (#[trigger] s[i]) != '\t' && s[i] != '\n' && s[i] != '\r'
}

proof fn lemma_plain_field(s: Seq<char>)
    requires
        plain_field(s),
    ensures
        trimmed(s) == s,
{
}

/// A reading that was written as a line is read back from it.
pub proof fn law_a_written_line_reads_back(
    ts: Seq<char>,
    name: Seq<char>,
    stars: int,
    created: Seq<char>,
    forks: int,
    issues: int,
    pushed: Seq<char>,
)
    requires
        plain_field(ts),
        plain_field(name),
        plain_field(created),
        plain_field(pushed),
        i64::MIN <= stars <= i64::MAX,
        i64::MIN <= forks <= i64::MAX,
        i64::MIN <= issues <= i64::MAX,
    ensures
        ({
            let tab = seq!['\t'];
            let line = ts + tab + (name + tab + (crate::text::integer(stars) + tab + (created + tab + (
            crate::text::integer(forks) + tab + (crate::text::integer(issues) + tab + pushed)))));
            snapshot_of(line) == Ok::<Option<SnapshotView>, LineFault>(
                Some(
                    SnapshotView {
                        ts,
                        full_name: name,
                        stars,
                        created_at: Some(created),
                        forks: Some(forks),
                        open_issues: Some(issues),
                        pushed_at: Some(pushed),
                    },
                ),
            )
        }),
{
    let tab = seq!['\t'];
    let (a, b, c) = (
        crate::text::integer(stars),
        crate::text::integer(forks),
        crate::text::integer(issues),
    );
    lemma_integer_is_plain(stars);
    lemma_integer_is_plain(forks);
    lemma_integer_is_plain(issues);
    lemma_plain_field(ts);
    lemma_plain_field(name);
    lemma_plain_field(created);
    lemma_plain_field(pushed);
    lemma_plain_field(a);
    lemma_plain_field(b);
    lemma_plain_field(c);
    crate::text::law_integers_read_back(stars, a);
    crate::text::law_integers_read_back(forks, b);
    crate::text::law_integers_read_back(issues, c);
    let l5 = c + tab + pushed;
    let l4 = b + tab + l5;
    let l3 = created + tab + l4;
    let l2 = a + tab + l3;
    let l1 = name + tab + l2;
    let line = ts + tab + l1;
    crate::text::lemma_split_whole(pushed, '\t');
    crate::text::lemma_split_first(c, '\t', pushed);
    crate::text::lemma_split_first(b, '\t', l5);
    crate::text::lemma_split_first(created, '\t', l4);
    crate::text::lemma_split_first(a, '\t', l3);
    crate::text::lemma_split_first(name, '\t', l2);
    crate::text::lemma_split_first(ts, '\t', l1);
    assert(split(line, '\t') =~= seq![ts, name, a, created, b, c, pushed]);
    assert(line.last() == pushed.last());
    assert(bare(line) == line);
}

proof fn lemma_integer_is_plain(n: int)
    ensures
        plain_field(crate::text::integer(n)),
{
    let s = crate::text::integer(n);
    let m = (if n < 0 {
        -n
    } else {
        n
    }) as nat;
    crate::text::lemma_decimal_digits(m);
    assert forall|i: int| 0 <= i < s.len() implies (#[trigger] s[i]) == '-' || '0' <= s[i] <= '9' by {
        if n < 0 {
            if i > 0 {
                assert(s[i] == decimal(m)[i - 1]);
            }
        } else {
            assert(s[i] == decimal(m)[i]);
        }
    }
    assert(s.last() == s[s.len() - 1]);
    assert(s[0] == s[0]);
}

/// A file is taken exactly where every line of it is, and has the readings of its lines in their
/// order; otherwise the first line that is wrong is named, counted from one.
pub proof fn law_a_file_is_its_lines(text: Seq<Seq<char>>)
    ensures
        rows_in(text) is Ok <==> forall|k: int|
            0 <= k < text.len() ==> (#[trigger] snapshot_of(text[k])) is Ok,
        rows_in(text) matches Ok(rows) ==> rows == text.filter(
            |line: Seq<char>| holds_a_reading(line),
        ).map_values(|line: Seq<char>| reading_in(line)),
        forall|k: int|
            0 <= k < text.len() && (#[trigger] snapshot_of(text[k])) is Err && (forall|j: int|
                0 <= j < k ==> (#[trigger] snapshot_of(text[j])) is Ok) ==> rows_in(text) == Err::<
                Seq<SnapshotView>,
                (int, LineFault),
            >((k + 1, snapshot_of(text[k])->Err_0)),
    decreases text.len(),
{
    reveal(Seq::filter);
    let holds = |line: Seq<char>| holds_a_reading(line);
    let value = |line: Seq<char>| reading_in(line);
    if text.len() == 0 {
        assert(text.filter(holds).map_values(value) =~= Seq::<SnapshotView>::empty());
    } else {
        let rest = text.drop_last();
        let n = text.len() - 1;
        law_a_file_is_its_lines(rest);
        assert(text[n] == text.last());
        assert(forall|k: int| 0 <= k < n ==> #[trigger] rest[k] == text[k]);
        assert(forall|k: int| 0 <= k < n ==> #[trigger] text[k] == rest[k]);
        if rows_in(rest) is Ok {
            assert forall|k: int| 0 <= k < n implies (#[trigger] snapshot_of(text[k])) is Ok by {
                assert(snapshot_of(rest[k]) is Ok);
            }
        } else if forall|k: int| 0 <= k < text.len() ==> (#[trigger] snapshot_of(text[k])) is Ok {
            assert forall|k: int| 0 <= k < n implies (#[trigger] snapshot_of(rest[k])) is Ok by {
                assert(snapshot_of(text[k]) is Ok);
            }
        }
        if holds(text.last()) {
            assert(rest.filter(holds).push(text.last()).map_values(value) =~= rest.filter(
                holds,
            ).map_values(value).push(value(text.last())));
        }
        assert forall|k: int|
            0 <= k < text.len() && (#[trigger] snapshot_of(text[k])) is Err && (forall|j: int|
                0 <= j < k ==> (#[trigger] snapshot_of(text[j])) is Ok) implies rows_in(text)
            == Err::<Seq<SnapshotView>, (int, LineFault)>((k + 1, snapshot_of(text[k])->Err_0)) by {
            if k < n {
                assert(snapshot_of(rest[k]) is Err);
                assert forall|j: int| 0 <= j < k implies (#[trigger] snapshot_of(rest[j])) is Ok by {
                    assert(snapshot_of(text[j]) is Ok);
                }
            } else {
                assert forall|j: int| 0 <= j < n implies (#[trigger] snapshot_of(rest[j])) is Ok by {
                    assert(snapshot_of(text[j]) is Ok);
                }
            }
        }
    }
}

/// Whether a line holds a reading.
pub open spec fn holds_a_reading(line: Seq<char>) -> bool {
    snapshot_of(line) matches Ok(Some(_))
}

/// The reading that a line holds.
pub open spec fn reading_in(line: Seq<char>) -> SnapshotView {
    snapshot_of(line)->Ok_0->0
}

/// A tally of a name counts its readings, has the earliest of their moments, and the first date
/// of its making that any of them gives.
pub proof fn law_a_tally_is_of_all_readings_of_a_name(rows: Seq<SnapshotView>, name: Seq<char>)
    ensures
        count_of(rows, name) == rows.filter(|r: SnapshotView| r.full_name == name).len(),
        first_seen_of(rows, name) is Some <==> count_of(rows, name) > 0,
        first_seen_of(rows, name) matches Some(ts) ==> {
            &&& forall|k: int|
                0 <= k < rows.len() && (#[trigger] rows[k]).full_name == name ==> !text_lt(
                    rows[k].ts,
                    ts,
                )
            &&& exists|k: int|
                0 <= k < rows.len() && (#[trigger] rows[k]).full_name == name && rows[k].ts == ts
        },
        created_of(rows, name) is None <==> forall|k: int|
            0 <= k < rows.len() && (#[trigger] rows[k]).full_name == name
                ==> rows[k].created_at is None,
        forall|k: int|
            0 <= k < rows.len() && (#[trigger] rows[k]).full_name == name && rows[k].created_at is Some
                && (forall|j: int|
                0 <= j < k && (#[trigger] rows[j]).full_name == name ==> rows[j].created_at is None)
                ==> created_of(rows, name) == rows[k].created_at,
    decreases rows.len(),
{
    lemma_counts_filter(rows, name);
    lemma_first_seen(rows, name);
    lemma_created(rows, name);
}

proof fn lemma_counts_filter(rows: Seq<SnapshotView>, name: Seq<char>)
    ensures
        count_of(rows, name) == rows.filter(|r: SnapshotView| r.full_name == name).len(),
    decreases rows.len(),
{
    reveal(Seq::filter);
    if rows.len() > 0 {
        lemma_counts_filter(rows.drop_last(), name);
    }
}

proof fn lemma_first_seen(rows: Seq<SnapshotView>, name: Seq<char>)
    ensures
        first_seen_of(rows, name) is Some <==> count_of(rows, name) > 0,
        first_seen_of(rows, name) matches Some(ts) ==> {
            &&& forall|k: int|
                0 <= k < rows.len() && (#[trigger] rows[k]).full_name == name ==> !text_lt(
                    rows[k].ts,
                    ts,
                )
            &&& exists|k: int|
                0 <= k < rows.len() && (#[trigger] rows[k]).full_name == name && rows[k].ts == ts
        },
        first_seen_of(rows, name) is None ==> forall|k: int|
            0 <= k < rows.len() ==> (#[trigger] rows[k]).full_name != name,
    decreases rows.len(),
{
    if rows.len() > 0 {
        let rest = rows.drop_last();
        let n = rows.len() - 1;
        let last = rows.last();
        lemma_first_seen(rest, name);
        assert(rows[n] == last);
        assert(forall|k: int| 0 <= k < n ==> #[trigger] rows[k] == rest[k]);
        assert(forall|k: int| 0 <= k < n ==> #[trigger] rest[k] == rows[k]);
        lemma_text_order_total(last.ts, last.ts);
        if let Some(ts) = first_seen_of(rest, name) {
            lemma_text_order_total(last.ts, ts);
            assert forall|k: int|
                0 <= k < n && (#[trigger] rows[k]).full_name == name implies !text_lt(
                rows[k].ts,
                first_seen_of(rows, name)->0,
            ) by {
                let other = rest[k].ts;
                lemma_text_order_total(other, ts);
                lemma_text_order_total(other, last.ts);
                if text_lt(other, last.ts) && text_lt(last.ts, ts) {
                    lemma_text_order_transitive(other, last.ts, ts);
                }
            }
            let k = choose|k: int|
                0 <= k < rest.len() && (#[trigger] rest[k]).full_name == name && rest[k].ts == ts;
            assert(rows[k].ts == ts);
        }
    }
}

proof fn lemma_created(rows: Seq<SnapshotView>, name: Seq<char>)
    ensures
        created_of(rows, name) is None <==> forall|k: int|
            0 <= k < rows.len() && (#[trigger] rows[k]).full_name == name
                ==> rows[k].created_at is None,
        forall|k: int|
            0 <= k < rows.len() && (#[trigger] rows[k]).full_name == name && rows[k].created_at is Some
                && (forall|j: int|
                0 <= j < k && (#[trigger] rows[j]).full_name == name ==> rows[j].created_at is None)
                ==> created_of(rows, name) == rows[k].created_at,
    decreases rows.len(),
{
    if rows.len() > 0 {
        let rest = rows.drop_last();
        let n = rows.len() - 1;
        lemma_created(rest, name);
        assert(rows[n] == rows.last());
        assert(forall|k: int| 0 <= k < n ==> #[trigger] rows[k] == rest[k]);
        assert(forall|k: int| 0 <= k < n ==> #[trigger] rest[k] == rows[k]);
        assert forall|k: int|
            0 <= k < rows.len() && (#[trigger] rows[k]).full_name == name && rows[k].created_at is Some
                && (forall|j: int|
                0 <= j < k && (#[trigger] rows[j]).full_name == name
                    ==> rows[j].created_at is None) implies created_of(rows, name)
            == rows[k].created_at by {
            if k < n {
                assert(rest[k] == rows[k]);
                assert forall|j: int| 0 <= j < k && (#[trigger] rest[j]).full_name
                    == name implies rest[j].created_at is None by {
                    assert(rows[j].created_at is None);
                }
            } else {
                assert forall|j: int| 0 <= j < n && (#[trigger] rest[j]).full_name
                    == name implies rest[j].created_at is None by {
                    assert(rows[j].created_at is None);
                }
            }
        }
    }
}

/// Every name that resolved to a repo has a row, under the id of the repo and from its earliest
/// reading on, and no other name has one. What GitHub was asked for says GitHub's name and date.
pub proof fn law_rows_are_of_the_names_that_resolved(
    names: Seq<NameTally>,
    found: Seq<Resolution>,
    k: int,
)
    requires
        names.len() == found.len(),
        0 <= k < names.len(),
    ensures
        upsert_of(names[k], found[k]) is Some <==> found[k] is Known || found[k] is Fetched,
        upsert_of(names[k], found[k]) matches Some(row) ==> {
            &&& row.enrolled_at == names[k].first_seen@
            &&& found[k] matches Resolution::Known(id) ==> row.id == id && row.full_name
                == names[k].name@ && row.created_at == opt_text(names[k].created)
            &&& found[k] matches Resolution::Fetched { id, full_name, created_at } ==> row.id == id
                && row.full_name == full_name@ && row.created_at == Some(created_at@)
            &&& upserts_of(names, found).contains(row)
        },
        upserts_of(names, found).len() == found.filter(
            |r: Resolution| r is Known || r is Fetched,
        ).len(),
    decreases names.len(),
{
    lemma_upserts_count(names, found);
    if upsert_of(names[k], found[k]) is Some {
        lemma_upsert_is_kept(names, found, k);
    }
}

proof fn lemma_upserts_count(names: Seq<NameTally>, found: Seq<Resolution>)
    requires
        names.len() == found.len(),
    ensures
        upserts_of(names, found).len() == found.filter(
            |r: Resolution| r is Known || r is Fetched,
        ).len(),
    decreases names.len(),
{
    reveal(Seq::filter);
    if names.len() > 0 {
        lemma_upserts_count(names.drop_last(), found.drop_last());
    }
}

proof fn lemma_upsert_is_kept(names: Seq<NameTally>, found: Seq<Resolution>, k: int)
    requires
        names.len() == found.len(),
        0 <= k < names.len(),
        upsert_of(names[k], found[k]) is Some,
    ensures
        upserts_of(names, found).contains(upsert_of(names[k], found[k])->0),
    decreases names.len(),
{
    let head = upserts_of(names.drop_last(), found.drop_last());
    let all = upserts_of(names, found);
    let row = upsert_of(names[k], found[k])->0;
    if k == names.len() - 1 {
        assert(all[all.len() - 1] == row);
    } else {
        assert(names.drop_last()[k] == names[k] && found.drop_last()[k] == found[k]);
        lemma_upsert_is_kept(names.drop_last(), found.drop_last(), k);
        let i = choose|i: int| 0 <= i < head.len() && head[i] == row;
        assert(all[i] == head[i]);
    }
}

/// A reading is written under the id that its name resolved to, and under none where its name
/// resolved to none.
pub proof fn law_readings_go_under_the_id_of_their_name(
    names: Seq<NameTally>,
    found: Seq<Resolution>,
    k: int,
)
    requires
        names.len() == found.len(),
        by_name(names),
        0 <= k < names.len(),
    ensures
        id_for(names, found, names[k].name@) == match found[k] {
            Resolution::Known(id) => Some(id as int),
            Resolution::Fetched { id, .. } => Some(id as int),
            Resolution::Missing => None,
            Resolution::OptedOut => None,
        },
{
    lemma_id_for(names, found, names[k].name@);
}

/// The report of an import counts what there is: the names that were known, those that GitHub
/// described, those that are no longer visible, and the readings that were skipped.
pub proof fn law_reports_count_what_there_is(
    names: Seq<NameTally>,
    found: Seq<Resolution>,
    ids: Seq<Option<i64>>,
    rows: Seq<SnapshotView>,
)
    requires
        names.len() == found.len(),
    ensures
        known_count(found) == found.filter(|r: Resolution| r is Known).len(),
        fetched_count(found) == found.filter(|r: Resolution| r is Fetched).len(),
        missing_lines(names, found).len() == found.filter(|r: Resolution| r is Missing).len(),
        missing_in(ids) == ids.filter(|id: Option<i64>| id is None).len(),
        skipped_in(rows, names, found) == rows.filter(
            |r: SnapshotView| id_for(names, found, r.full_name) is None,
        ).len(),
{
    lemma_found_counts(names, found);
    lemma_missing_counts(ids);
    lemma_skipped_counts(rows, names, found);
}

proof fn lemma_found_counts(names: Seq<NameTally>, found: Seq<Resolution>)
    requires
        names.len() == found.len(),
    ensures
        known_count(found) == found.filter(|r: Resolution| r is Known).len(),
        fetched_count(found) == found.filter(|r: Resolution| r is Fetched).len(),
        missing_lines(names, found).len() == found.filter(|r: Resolution| r is Missing).len(),
    decreases found.len(),
{
    reveal(Seq::filter);
    if found.len() > 0 {
        lemma_found_counts(names.drop_last(), found.drop_last());
    }
}

proof fn lemma_missing_counts(ids: Seq<Option<i64>>)
    ensures
        missing_in(ids) == ids.filter(|id: Option<i64>| id is None).len(),
    decreases ids.len(),
{
    reveal(Seq::filter);
    if ids.len() > 0 {
        lemma_missing_counts(ids.drop_last());
    }
}

proof fn lemma_skipped_counts(
    rows: Seq<SnapshotView>,
    names: Seq<NameTally>,
    found: Seq<Resolution>,
)
    ensures
        skipped_in(rows, names, found) == rows.filter(
            |r: SnapshotView| id_for(names, found, r.full_name) is None,
        ).len(),
    decreases rows.len(),
{
    reveal(Seq::filter);
    if rows.len() > 0 {
        lemma_skipped_counts(rows.drop_last(), names, found);
    }
}

/// Whether a text is four digits, a hyphen and two digits.
pub open spec fn is_year_and_month(s: Seq<char>) -> bool {
    &&& s.len() == 7
    &&& '0' <= s[0] <= '9' && '0' <= s[1] <= '9' && '0' <= s[2] <= '9' && '0' <= s[3] <= '9'
    &&& s[4] == '-'
    &&& '0' <= s[5] <= '9' && '0' <= s[6] <= '9'
}

/// A month is read off itself and off a day of it, and whatever is read as a month has the shape
/// of one and stands at the beginning of the text.
pub proof fn law_months_are_read_off_their_days(month: Seq<char>, day: Seq<char>, field: Seq<char>)
    requires
        is_year_and_month(month),
    ensures
        month_in(month) == Some(month),
        month_in(month + seq!['-'] + day) == Some(month),
        month_in(field) matches Some(m) ==> is_year_and_month(m) && field.len() >= 7 && field.take(7)
            == m && (field.len() > 7 ==> field[7] == '-'),
{
    assert forall|k: int| 0 <= k < 7 && k != 4 implies is_digit(#[trigger] month[k]) by {}
    crate::text::law_plain_prefixes_are_counted_in_characters(month, 7);
    assert(month.take(7) =~= month);
    let long = month + seq!['-'] + day;
    assert forall|i: int| 0 <= i < 7 && i < long.len() implies (#[trigger] long[i]) < '\u{80}' by {
        assert(long[i] == month[i]);
    }
    crate::text::law_plain_prefixes_are_counted_in_characters(long, 7);
    assert(long.take(7) =~= month);
    if let Some(m) = month_in(field) {
        crate::text::lemma_byte_prefix_is_prefix(field, 7);
        assert(is_digit(m[0]) && is_digit(m[1]) && is_digit(m[2]) && is_digit(m[3]));
        assert(is_digit(m[5]) && is_digit(m[6]));
        assert(field.take(7) =~= m);
    }
}

/// A monthly count is taken exactly where a line has three fields: a name, a month and an
/// integer; and it says what they say.
pub proof fn law_a_monthly_line_says_what_its_fields_say(line: Seq<char>)
    ensures
        ({
            let f = split(bare(line), '\t');
            &&& bare(line).len() == 0 ==> prehistory_of(line) == Ok::<
                Option<PrehistoryView>,
                LineFault,
            >(None)
            &&& bare(line).len() > 0 ==> (prehistory_of(line) is Ok <==> f.len() == 3 && trimmed(
                f[0],
            ).len() > 0 && month_in(f[1]) is Some && integer_value(trimmed(f[2])) is Some)
            &&& bare(line).len() > 0 && prehistory_of(line) is Ok ==> (prehistory_of(
                line,
            ) matches Ok(Some(row)) && row.full_name == trimmed(f[0]) && Some(row.month) == month_in(
                f[1],
            ) && Some(row.gross_watch_events) == integer_value(trimmed(f[2])))
        }),
{
}

/// A row of the capture table reads back: its month, and the percentage without the mark of a
/// guess, the percent sign and its commas. A line that does not begin with a bar is no row.
pub proof fn law_a_row_of_the_table_reads_back(
    month: Seq<char>,
    events: Seq<char>,
    number: Seq<char>,
    guessed: bool,
    line: Seq<char>,
)
    requires
        is_year_and_month(month),
        !events.contains('|'),
        !number.contains('|'),
        number.len() > 0,
        !is_space(number[0]),
        number[0] != '~',
        !is_space(number.last()),
    ensures
        ({
            let mark = if guessed {
                seq!['~']
            } else {
                Seq::empty()
            };
            let row = seq!['|', ' '] + month + seq![' ', '|', ' '] + events + seq![' ', '|', ' ']
                + mark + number + seq!['%', ' ', '|'];
            ratio_in(row) == Some((month, without(number, ',')))
        }),
        trimmed(line).len() == 0 || trimmed(line)[0] != '|' ==> ratio_in(line) is None,
{
    reveal_strlit("|");
    reveal_strlit("%");
    let bar = CharClass::Only('|');
    let space = CharClass::Space;
    let none = Seq::<char>::empty();
    let mark = if guessed {
        seq!['~']
    } else {
        none
    };
    let first = seq![' '] + month + seq![' '];
    let second = seq![' '] + events + seq![' '];
    let percent = mark + number + seq!['%'];
    let third = seq![' '] + percent + seq![' '];
    let inner = first + seq!['|'] + (second + seq!['|'] + third);
    let row = seq!['|', ' '] + month + seq![' ', '|', ' '] + events + seq![' ', '|', ' '] + mark
        + number + seq!['%', ' ', '|'];
    assert(row =~= seq!['|'] + inner + seq!['|']);
    assert(none + row + none =~= row);
    law_padding_is_trimmed_off(none, row, none, space);
    assert(inner[0] == ' ' && inner.last() == ' ');
    law_padding_is_trimmed_off(seq!['|'], inner, seq!['|'], bar);
    assert(row.take(1) =~= "|"@);
    assert forall|i: int| 0 <= i < first.len() implies first[i] != '|' by {
        if 0 < i < 8 {
            assert(first[i] == month[i - 1]);
        }
    }
    assert forall|i: int| 0 <= i < second.len() implies second[i] != '|' by {
        if 0 < i < second.len() - 1 {
            assert(second[i] == events[i - 1]);
            assert(events[i - 1] == '|' ==> events.contains('|'));
        }
    }
    assert forall|i: int| 0 <= i < third.len() implies third[i] != '|' by {
        let k = i - 1 - mark.len();
        if 0 <= k < number.len() {
            assert(third[i] == number[k]);
            assert(number[k] == '|' ==> number.contains('|'));
        }
    }
    lemma_split_whole(third, '|');
    lemma_split_first(second, '|', third);
    lemma_split_first(first, '|', second + seq!['|'] + third);
    let cells = split(inner, '|');
    assert(cells =~= seq![first, second, third]);
    law_padding_is_trimmed_off(seq![' '], month, seq![' '], space);
    law_padding_is_trimmed_off(seq![' '], percent, seq![' '], space);
    law_plain_prefixes_are_counted_in_characters(month, 7);
    assert(month.take(7) =~= month);
    assert forall|k: int| 0 <= k < 7 && k != 4 implies is_digit(#[trigger] month[k]) by {}
    law_what_was_put_on_comes_off(mark + number, "%"@);
    assert("%"@ =~= seq!['%']);
    assert(percent.skip((mark + number).len() as int) =~= "%"@);
    lemma_padding_before(mark, number, CharClass::Only('~'));
    assert(none + number + none =~= number);
    law_padding_is_trimmed_off(none, number, none, space);
    if trimmed(line).len() == 0 || trimmed(line)[0] != '|' {
        if starts_with(trimmed(line), "|"@) {
            assert(trimmed(line).take(1)[0] == '|');
        }
    }
}

/// The rows of the capture table are the lines that are rows, in their order.
pub proof fn law_the_table_is_its_rows(text: Seq<Seq<char>>)
    ensures
        ratios_in(text) == text.filter(|line: Seq<char>| ratio_in(line) is Some).map_values(
            |line: Seq<char>| ratio_in(line)->0,
        ),
    decreases text.len(),
{
    reveal(Seq::filter);
    let holds = |line: Seq<char>| ratio_in(line) is Some;
    let value = |line: Seq<char>| ratio_in(line)->0;
    if text.len() == 0 {
        assert(ratios_in(text) =~= text.filter(holds).map_values(value));
    } else {
        let rest = text.drop_last();
        law_the_table_is_its_rows(rest);
        if holds(text.last()) {
            assert(rest.filter(holds).push(text.last()).map_values(value) =~= rest.filter(
                holds,
            ).map_values(value).push(value(text.last())));
        }
    }
}

} // verus!
