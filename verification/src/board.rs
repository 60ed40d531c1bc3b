//! The velocity leaderboard: one list, ranked by the number itself, so the percentile a card
//! claims is checkable against the row above and below it.

use vstd::prelude::*;

#[allow(unused_imports)]
use crate::badge::{Point, Share};
#[allow(unused_imports)]
use crate::text::{
    clone_text, lemma_text_order_total, lemma_text_order_transitive, lent_text, opt_text, same, sorts_before, text_lt,
};
#[allow(unused_imports)]
use crate::time::{iso8601, iso8601_utc};
#[allow(unused_imports)]
use crate::velocity::{
    daily, law_faster_never_ranks_worse, mini_region, mini_spark, percentile_of, proxy_average, proxy_rate,
    series_rate, series_velocity, share_of, spark_line, spark_points, spark_range, spread, Reading, SPARK_WINDOW,
    VELOCITY_WINDOW,
};

verus! {

/// The board shows the slice above this many stars; a repo somebody asked for sits on it at
/// any size. A display line only: moving it changes what the page prints, never what is
/// collected.
pub const BOARD_FLOOR: i64 = 2000;

// ---------------------------------------------------------------- series

/// One reading of the fleet, with what a leaderboard row needs around it.
#[derive(Debug, Clone, PartialEq, Eq)]
pub struct FleetReading {
    pub id: i64,
    pub full_name: String,
    pub created_at: Option<String>,
    pub language: Option<String>,
    pub lane: String,
    pub reading: Reading,
}

/// One repo's recent readings, with what a leaderboard row needs around them.
#[derive(Debug, Clone, PartialEq, Eq)]
pub struct Series {
    pub id: i64,
    pub full_name: String,
    pub created_at: Option<String>,
    pub language: Option<String>,
    /// How the repo entered; requested lanes sit on the board at any size.
    pub lane: String,
    pub readings: Vec<Reading>,
}

/// What a series says, as texts and readings.
pub struct SeriesView {
    pub id: int,
    pub full_name: Seq<char>,
    pub created_at: Option<Seq<char>>,
    pub language: Option<Seq<char>>,
    pub lane: Seq<char>,
    pub readings: Seq<Reading>,
}

impl View for Series {
    type V = SeriesView;

    open spec fn view(&self) -> SeriesView {
        SeriesView {
            id: self.id as int,
            full_name: self.full_name@,
            created_at: opt_text(self.created_at),
            language: opt_text(self.language),
            lane: self.lane@,
            readings: self.readings@,
        }
    }
}

/// Every series of a list.
pub open spec fn series_views(series: Seq<Series>) -> Seq<SeriesView> {
    series.map_values(|s: Series| s@)
}

/// The series that one reading starts.
pub open spec fn started(row: FleetReading) -> SeriesView {
    SeriesView {
        id: row.id as int,
        full_name: row.full_name@,
        created_at: opt_text(row.created_at),
        language: opt_text(row.language),
        lane: row.lane@,
        readings: seq![row.reading],
    }
}

/// Readings that follow each other and share a repo, gathered. Rows arrive grouped by repo and
/// ordered in time, and a repo's name is only read off the first row of its group.
pub open spec fn gathered(rows: Seq<FleetReading>) -> Seq<SeriesView>
    decreases rows.len(),
{
    if rows.len() == 0 {
        Seq::empty()
    } else {
        let head = gathered(rows.drop_last());
        let row = rows.last();
        if head.len() > 0 && head.last().id == row.id {
            head.drop_last().push(
                SeriesView { readings: head.last().readings.push(row.reading), ..head.last() },
            )
        } else {
            head.push(started(row))
        }
    }
}

/// The readings of a list of series, one series after the other.
pub open spec fn all_readings(series: Seq<SeriesView>) -> Seq<Reading>
    decreases series.len(),
{
    if series.len() == 0 {
        Seq::empty()
    } else {
        all_readings(series.drop_last()) + series.last().readings
    }
}

/// Gathering loses no reading and moves none.
pub proof fn law_gathering_keeps_every_reading(rows: Seq<FleetReading>)
    ensures
        all_readings(gathered(rows)) == rows.map_values(|row: FleetReading| row.reading),
    decreases rows.len(),
{
    let taken = |row: FleetReading| row.reading;
    if rows.len() == 0 {
        assert(all_readings(gathered(rows)) =~= rows.map_values(taken));
    } else {
        let head = gathered(rows.drop_last());
        let row = rows.last();
        law_gathering_keeps_every_reading(rows.drop_last());
        assert(gathered(rows).drop_last() =~= if head.len() > 0 && head.last().id == row.id {
            head.drop_last()
        } else {
            head
        });
        assert(rows.map_values(taken) =~= rows.drop_last().map_values(taken).push(row.reading));
        assert(all_readings(gathered(rows)) =~= all_readings(head).push(row.reading));
    }
}

/// Where the readings of a series begin among those of all.
pub open spec fn first_row(series: Seq<SeriesView>, k: int) -> int {
    all_readings(series.take(k)).len() as int
}

/// Whether a series is a run of rows of one repo, from a row on, that says of the repo what the
/// first of them says.
pub open spec fn is_run(s: SeriesView, rows: Seq<FleetReading>, from: int) -> bool {
    &&& 0 < s.readings.len()
    &&& 0 <= from && from + s.readings.len() <= rows.len()
    &&& s.full_name == rows[from].full_name@
    &&& s.created_at == opt_text(rows[from].created_at)
    &&& s.language == opt_text(rows[from].language)
    &&& s.lane == rows[from].lane@
    &&& forall|j: int|
        0 <= j < s.readings.len() ==> (#[trigger] s.readings[j]) == rows[from + j].reading && rows[from
            + j].id == s.id
}

/// A run goes on where the next row is of the same repo.
proof fn lemma_run_goes_on(s: SeriesView, rows: Seq<FleetReading>, row: FleetReading, from: int)
    requires
        is_run(s, rows, from),
    ensures
        is_run(s, rows.push(row), from),
        s.id == row.id && from + s.readings.len() == rows.len() ==> is_run(
            SeriesView { readings: s.readings.push(row.reading), ..s },
            rows.push(row),
            from,
        ),
{
    let longer = rows.push(row);
    assert forall|j: int| 0 <= j < s.readings.len() implies (#[trigger] s.readings[j])
        == longer[from + j].reading && longer[from + j].id == s.id by {
        assert(s.readings[j] == rows[from + j].reading);
        assert(longer[from + j] == rows[from + j]);
    }
    assert(longer[from] == rows[from]);
    if s.id == row.id && from + s.readings.len() == rows.len() {
        let grown = s.readings.push(row.reading);
        assert forall|j: int| 0 <= j < grown.len() implies (#[trigger] grown[j]) == longer[from
            + j].reading && longer[from + j].id == s.id by {
            if j < s.readings.len() {
                assert(grown[j] == s.readings[j]);
            } else {
                assert(longer[from + j] == row);
            }
        }
    }
}

/// Whether a list of series is made of runs of rows, one behind the other, of which no two
/// neighbours are of one repo.
pub open spec fn are_runs(series: Seq<SeriesView>, rows: Seq<FleetReading>) -> bool {
    &&& forall|k: int|
        0 <= k < series.len() ==> is_run(#[trigger] series[k], rows, first_row(series, k))
    &&& forall|k: int| 0 < k < series.len() ==> (#[trigger] series[k]).id != series[k - 1].id
}

/// Every series is a run of the rows of one repo, and the next series is of another: the rows
/// of a repo that follow each other are one series, and no two repos are ever mixed.
#[verifier::spinoff_prover]
#[verifier::rlimit(60)]
pub proof fn law_series_are_the_runs_of_a_repo(rows: Seq<FleetReading>)
    ensures
        are_runs(gathered(rows), rows),
    decreases rows.len(),
{
    if rows.len() > 0 {
        let rest = rows.drop_last();
        let row = rows.last();
        let head = gathered(rest);
        let all = gathered(rows);
        law_series_are_the_runs_of_a_repo(rest);
        law_gathering_keeps_every_reading(rest);
        assert(rest.push(row) =~= rows);
        assert(all_readings(head).len() == rest.len());
        let joined = head.len() > 0 && head.last().id == row.id;
        let kept = if joined {
            head.len() - 1
        } else {
            head.len() as int
        };
        assert(all.len() == kept + 1);
        assert forall|k: int| 0 <= k < all.len() implies is_run(
            #[trigger] all[k],
            rows,
            first_row(all, k),
        ) by {
            assert(all.take(k) =~= head.take(k));
            assert(first_row(all, k) == first_row(head, k));
            if k < kept {
                assert(all[k] == head[k]);
                lemma_run_goes_on(head[k], rest, row, first_row(head, k));
            } else if joined {
                assert(is_run(head[k], rest, first_row(head, k)));
                assert(head.take(k) =~= head.drop_last());
                assert(first_row(head, k) + head[k].readings.len() == rest.len());
                lemma_run_goes_on(head[k], rest, row, first_row(head, k));
            } else {
                assert(head.take(k) =~= head);
                assert(first_row(all, k) == rest.len());
                assert(rows[rest.len() as int] == row);
                assert(all[k] == started(row));
                assert forall|j: int| 0 <= j < all[k].readings.len() implies (
                #[trigger] all[k].readings[j]) == rows[rest.len() + j].reading && rows[rest.len()
                    + j].id == all[k].id by {}
            }
        }
        assert forall|k: int| 0 < k < all.len() implies (#[trigger] all[k]).id != all[k - 1].id by {
            if k < kept {
                assert(all[k] == head[k] && all[k - 1] == head[k - 1]);
            } else if joined {
                assert(all[k].id == head[k].id && all[k - 1] == head[k - 1]);
            } else {
                assert(all[k - 1] == head[k - 1]);
            }
        }
    } else {
        assert(gathered(rows).len() == 0);
    }
}

/// The moment from which the fleet's readings count.
pub fn recent_since(now: i64) -> (r: String)
    requires
        now - VELOCITY_WINDOW >= i64::MIN,
    ensures
        r@ == iso8601(now - VELOCITY_WINDOW),
        r@ == iso8601(now - 35 * 86_400),
{
    iso8601_utc(now - VELOCITY_WINDOW)
}

/// The moment from which a card's readings count.
pub fn spark_since(now: i64) -> (r: String)
    requires
        now - SPARK_WINDOW >= i64::MIN,
    ensures
        r@ == iso8601(now - SPARK_WINDOW),
        r@ == iso8601(now - 30 * 86_400),
{
    iso8601_utc(now - SPARK_WINDOW)
}

/// Every measurable repo's recent window, out of the rows of one pass.
pub fn recent_series(rows: Vec<FleetReading>) -> (r: Vec<Series>)
    ensures
        series_views(r@) == gathered(rows@),
{
    let ghost all = rows@;
    let total = rows.len();
    let mut left = reversed(rows);
    let mut out: Vec<Series> = Vec::new();
    assert(series_views(out@) =~= gathered(all.take(0)));
    let mut i: usize = 0;
    while left.len() > 0
        invariant
            left@.len() + i == all.len(),
            total == all.len(),
            forall|k: int| 0 <= k < left@.len() ==> #[trigger] left@[k] == all[all.len() - 1 - k],
            series_views(out@) == gathered(all.take(i as int)),
        decreases left.len(),
    {
        let ghost was = out@;
        assert(all.take(i + 1).drop_last() =~= all.take(i as int));
        assert(all.take(i + 1).last() == all[i as int]);
        let row = match left.pop() {
            Some(row) => row,
            None => return out,
        };
        assert(row == all[i as int]);
        let n = out.len();
        assert(n > 0 ==> series_views(was).last() == was[n - 1]@);
        if n > 0 && out[n - 1].id == row.id {
            let mut series = match out.pop() {
                Some(series) => series,
                None => return out,
            };
            series.readings.push(row.reading);
            out.push(series);
            assert(out@.last()@.readings =~= was.last()@.readings.push(row.reading));
            assert(series_views(out@) =~= series_views(was).drop_last().push(
                SeriesView { readings: was.last()@.readings.push(row.reading), ..was.last()@ },
            ));
        } else {
            let mut readings: Vec<Reading> = Vec::new();
            readings.push(row.reading);
            assert(readings@ =~= seq![row.reading]);
            out.push(
                Series {
                    id: row.id,
                    full_name: row.full_name,
                    created_at: row.created_at,
                    language: row.language,
                    lane: row.lane,
                    readings,
                },
            );
            assert(series_views(out@) =~= series_views(was).push(started(row)));
        }
        i += 1;
    }
    assert(all.take(i as int) =~= all);
    out
}

/// The same items from the last to the first.
fn reversed(rows: Vec<FleetReading>) -> (r: Vec<FleetReading>)
    ensures
        r@ == rows@.reverse(),
{
    let ghost all = rows@;
    let mut left = rows;
    let mut out: Vec<FleetReading> = Vec::new();
    while left.len() > 0
        invariant
            left@ == all.take(left@.len() as int),
            left@.len() + out@.len() == all.len(),
            forall|k: int| 0 <= k < out@.len() ==> #[trigger] out@[k] == all[all.len() - 1 - k],
        decreases left.len(),
    {
        let row = match left.pop() {
            Some(row) => row,
            None => return out,
        };
        out.push(row);
    }
    assert(out@ =~= all.reverse());
    out
}

// ---------------------------------------------------------------- rows

#[derive(Debug, Clone, Copy, PartialEq, Eq, Structural)]
pub enum RowVelocity {
    Measured { per_day: i64, top_percent: Share },
    /// A young repo with nothing measured yet, ranked on its lifetime average and wearing the
    /// mark that says so.
    Proxy { avg: i64 },
}

impl RowVelocity {
    /// A percentile is taken out of a pool that is not empty.
    pub open spec fn wf(self) -> bool {
        self matches RowVelocity::Measured { top_percent, .. } ==> top_percent.pool > 0
    }

    /// What the row ranks on within its tier.
    pub open spec fn rank(self) -> int {
        match self {
            RowVelocity::Measured { per_day, .. } => per_day as int,
            RowVelocity::Proxy { avg } => avg as int,
        }
    }

    /// What the row ranks on within its tier. A proxy average is the best claim a repo has,
    /// but it is a guess about a rate, not a rate somebody measured, so it never outranks one.
    pub fn per_day(&self) -> (r: i64)
        ensures
            r == self.rank(),
    {
        match *self {
            RowVelocity::Measured { per_day, .. } => per_day,
            RowVelocity::Proxy { avg } => avg,
        }
    }

    pub fn is_proxy(&self) -> (r: bool)
        ensures
            r == (self is Proxy),
    {
        match *self {
            RowVelocity::Measured { .. } => false,
            RowVelocity::Proxy { .. } => true,
        }
    }
}

#[derive(Debug, Clone, PartialEq, Eq)]
pub struct BoardRow {
    pub full_name: String,
    /// Linguist's call at last sight; `None` renders as nothing.
    pub language: Option<String>,
    pub stars: i64,
    pub velocity: RowVelocity,
    /// Points of the minispark; measured rows only, because glow is earned.
    pub spark: Vec<Point>,
}

/// What a row says.
pub struct RowView {
    pub full_name: Seq<char>,
    pub language: Option<Seq<char>>,
    pub stars: int,
    pub velocity: RowVelocity,
    pub spark: Seq<Point>,
}

impl View for BoardRow {
    type V = RowView;

    open spec fn view(&self) -> RowView {
        RowView {
            full_name: self.full_name@,
            language: opt_text(self.language),
            stars: self.stars as int,
            velocity: self.velocity,
            spark: self.spark@,
        }
    }
}

/// Every row of a list.
pub open spec fn row_views(rows: Seq<BoardRow>) -> Seq<RowView> {
    rows.map_values(|r: BoardRow| r@)
}

/// Whether every row of a list has a percentile that can be taken.
pub open spec fn rows_wf(rows: Seq<RowView>) -> bool {
    forall|k: int| 0 <= k < rows.len() ==> (#[trigger] rows[k]).velocity.wf()
}

#[derive(Debug, Clone, PartialEq, Eq)]
pub struct Board {
    pub rows: Vec<BoardRow>,
    /// The newest reading behind the page, for the attribution line.
    pub through: Option<String>,
}

impl Board {
    pub open spec fn wf(self) -> bool {
        rows_wf(row_views(self.rows@))
    }
}

impl Default for Board {
    fn default() -> (r: Board)
        ensures
            r.wf(),
            row_views(r.rows@) == Seq::<RowView>::empty(),
            r.through is None,
    {
        let rows: Vec<BoardRow> = Vec::new();
        assert(row_views(rows@) =~= Seq::<RowView>::empty());
        Board { rows, through: None }
    }
}

/// Velocity is what the page claims, so it stays the default order. Stars is the same rows in
/// another order, carrying the same numbers.
#[derive(Debug, Clone, Copy, PartialEq, Eq, Structural)]
pub enum Sort {
    Velocity,
    Stars,
}

// ---------------------------------------------------------------- the order of rows

/// Whether one row stands above another: measured rows first, whatever their rate, then the
/// faster one or the one with more stars, then by name.
pub open spec fn above(sort: Sort, a: RowView, b: RowView) -> bool {
    match sort {
        Sort::Velocity => if (a.velocity is Proxy) != (b.velocity is Proxy) {
            b.velocity is Proxy
        } else if a.velocity.rank() != b.velocity.rank() {
            a.velocity.rank() > b.velocity.rank()
        } else {
            text_lt(a.full_name, b.full_name)
        },
        Sort::Stars => if a.stars != b.stars {
            a.stars > b.stars
        } else {
            text_lt(a.full_name, b.full_name)
        },
    }
}

fn stands_above(sort: Sort, a: &BoardRow, b: &BoardRow) -> (r: bool)
    ensures
        r == above(sort, a@, b@),
{
    match sort {
        Sort::Velocity => {
            if a.velocity.is_proxy() != b.velocity.is_proxy() {
                b.velocity.is_proxy()
            } else if a.velocity.per_day() != b.velocity.per_day() {
                a.velocity.per_day() > b.velocity.per_day()
            } else {
                sorts_before(a.full_name.as_str(), b.full_name.as_str())
            }
        },
        Sort::Stars => {
            if a.stars != b.stars {
                a.stars > b.stars
            } else {
                sorts_before(a.full_name.as_str(), b.full_name.as_str())
            }
        },
    }
}

/// How many of the first rows stand above one.
pub open spec fn rows_above(sort: Sort, rows: Seq<RowView>, row: RowView) -> int
    decreases rows.len(),
{
    if rows.len() == 0 || !above(sort, rows[0], row) {
        0
    } else {
        1 + rows_above(sort, rows.drop_first(), row)
    }
}

/// The rows in their order; rows that tie keep the order they came in.
pub open spec fn ranked(sort: Sort, rows: Seq<RowView>) -> Seq<RowView>
    decreases rows.len(),
{
    if rows.len() == 0 {
        rows
    } else {
        let rest = ranked(sort, rows.drop_first());
        rest.insert(rows_above(sort, rest, rows[0]), rows[0])
    }
}

proof fn lemma_rows_above(sort: Sort, rows: Seq<RowView>, row: RowView)
    ensures
        0 <= rows_above(sort, rows, row) <= rows.len(),
        forall|k: int|
            0 <= k < rows_above(sort, rows, row) ==> above(sort, #[trigger] rows[k], row),
        rows_above(sort, rows, row) < rows.len() ==> !above(
            sort,
            rows[rows_above(sort, rows, row)],
            row,
        ),
    decreases rows.len(),
{
    if rows.len() > 0 && above(sort, rows[0], row) {
        let rest = rows.drop_first();
        lemma_rows_above(sort, rest, row);
        assert forall|k: int| 0 <= k < rows_above(sort, rows, row) implies above(
            sort,
            #[trigger] rows[k],
            row,
        ) by {
            if k > 0 {
                assert(rows[k] == rest[k - 1]);
            }
        }
    }
}

/// Rows that do not stand above each other chain: the order has no cycles.
proof fn lemma_not_above_chains(sort: Sort, a: RowView, b: RowView, c: RowView)
    requires
        !above(sort, b, a),
        !above(sort, c, b),
    ensures
        !above(sort, c, a),
{
    lemma_text_order_total(a.full_name, b.full_name);
    lemma_text_order_total(b.full_name, c.full_name);
    lemma_text_order_total(a.full_name, c.full_name);
    if text_lt(a.full_name, b.full_name) && text_lt(b.full_name, c.full_name) {
        lemma_text_order_transitive(a.full_name, b.full_name, c.full_name);
    }
}

proof fn lemma_above_excludes(sort: Sort, a: RowView, b: RowView)
    requires
        above(sort, a, b),
    ensures
        !above(sort, b, a),
{
    lemma_text_order_total(a.full_name, b.full_name);
}

/// A board holds every row exactly once, and no row stands under one that it belongs above.
pub proof fn law_boards_are_in_order(sort: Sort, rows: Seq<RowView>)
    ensures
        ranked(sort, rows).to_multiset() == rows.to_multiset(),
        forall|i: int, j: int|
            0 <= i < j < ranked(sort, rows).len() ==> !above(
                sort,
                #[trigger] ranked(sort, rows)[j],
                #[trigger] ranked(sort, rows)[i],
            ),
    decreases rows.len(),
{
    broadcast use vstd::seq_lib::group_to_multiset_ensures;

    if rows.len() > 0 {
        let rest = ranked(sort, rows.drop_first());
        let row = rows[0];
        let at = rows_above(sort, rest, row);
        let all = ranked(sort, rows);
        law_boards_are_in_order(sort, rows.drop_first());
        lemma_rows_above(sort, rest, row);
        assert(all.remove(at) =~= rest);
        assert(rows.remove(0) =~= rows.drop_first());
        assert(all.contains(all[at]) && rows.contains(rows[0]));
        assert(all.to_multiset() =~= rest.to_multiset().insert(row));
        assert(rows.to_multiset() =~= rows.drop_first().to_multiset().insert(row));
        assert forall|i: int, j: int| 0 <= i < j < all.len() implies !above(
            sort,
            #[trigger] all[j],
            #[trigger] all[i],
        ) by {
            let x = if i < at {
                i
            } else {
                i - 1
            };
            let y = if j < at {
                j
            } else {
                j - 1
            };
            if i == at {
                assert(all[j] == rest[y]);
                if y > at {
                    assert(!above(sort, rest[y], rest[at]));
                    lemma_not_above_chains(sort, row, rest[at], rest[y]);
                } else {
                    assert(y == at);
                }
                assert(!above(sort, rest[at], row));
            } else if j == at {
                assert(all[i] == rest[x]);
                assert(above(sort, rest[x], row));
                lemma_above_excludes(sort, rest[x], row);
            } else {
                assert(all[i] == rest[x] && all[j] == rest[y]);
            }
        }
    }
}

proof fn lemma_ranking_keeps_rows_wf(sort: Sort, rows: Seq<RowView>)
    requires
        rows_wf(rows),
    ensures
        rows_wf(ranked(sort, rows)),
{
    broadcast use vstd::seq_lib::group_to_multiset_ensures;

    let all = ranked(sort, rows);
    law_boards_are_in_order(sort, rows);
    assert forall|k: int| 0 <= k < all.len() implies (#[trigger] all[k]).velocity.wf() by {
        assert(all.contains(all[k]));
        assert(all.to_multiset().count(all[k]) > 0);
        assert(rows.contains(all[k]));
    }
}

/// On the board that is ranked by velocity a guess never stands above a measurement.
pub proof fn law_measured_rows_come_first(rows: Seq<RowView>)
    ensures
        forall|i: int, j: int|
            0 <= i < j < ranked(Sort::Velocity, rows).len() && (#[trigger] ranked(
                Sort::Velocity,
                rows,
            )[j]).velocity is Measured ==> (#[trigger] ranked(
                Sort::Velocity,
                rows,
            )[i]).velocity is Measured,
{
    law_boards_are_in_order(Sort::Velocity, rows);
    let all = ranked(Sort::Velocity, rows);
    assert forall|i: int, j: int|
        0 <= i < j < all.len() && (#[trigger] all[j]).velocity is Measured implies (
    #[trigger] all[i]).velocity is Measured by {
        assert(!above(Sort::Velocity, all[j], all[i]));
    }
}

/// On the board that is ranked by stars the counts never ascend, and rows with the same count
/// stand in the order of their names.
pub proof fn law_star_counts_never_ascend(rows: Seq<RowView>)
    ensures
        forall|i: int, j: int|
            0 <= i < j < ranked(Sort::Stars, rows).len() ==> {
                let (upper, lower) = (
                    #[trigger] ranked(Sort::Stars, rows)[i],
                    #[trigger] ranked(Sort::Stars, rows)[j],
                );
                &&& upper.stars >= lower.stars
                &&& upper.stars == lower.stars ==> !text_lt(lower.full_name, upper.full_name)
            },
{
    law_boards_are_in_order(Sort::Stars, rows);
    let all = ranked(Sort::Stars, rows);
    assert forall|i: int, j: int| 0 <= i < j < all.len() implies {
        let (upper, lower) = (#[trigger] all[i], #[trigger] all[j]);
        &&& upper.stars >= lower.stars
        &&& upper.stars == lower.stars ==> !text_lt(lower.full_name, upper.full_name)
    } by {
        assert(!above(Sort::Stars, all[j], all[i]));
    }
}

/// On the board that is ranked by velocity the measured rates never ascend, nor do the averages
/// below them, and rows with the same number stand in the order of their names.
pub proof fn law_rates_never_ascend(rows: Seq<RowView>)
    ensures
        forall|i: int, j: int|
            0 <= i < j < ranked(Sort::Velocity, rows).len() ==> {
                let (upper, lower) = (
                    #[trigger] ranked(Sort::Velocity, rows)[i],
                    #[trigger] ranked(Sort::Velocity, rows)[j],
                );
                match (upper.velocity, lower.velocity) {
                    (
                        RowVelocity::Measured { per_day: a, .. },
                        RowVelocity::Measured { per_day: b, .. },
                    ) => a >= b && (a == b ==> !text_lt(lower.full_name, upper.full_name)),
                    (RowVelocity::Proxy { avg: a }, RowVelocity::Proxy { avg: b }) => a >= b && (a
                        == b ==> !text_lt(lower.full_name, upper.full_name)),
                    (RowVelocity::Measured { .. }, RowVelocity::Proxy { .. }) => true,
                    (RowVelocity::Proxy { .. }, RowVelocity::Measured { .. }) => false,
                }
            },
{
    law_boards_are_in_order(Sort::Velocity, rows);
    let all = ranked(Sort::Velocity, rows);
    assert forall|i: int, j: int| 0 <= i < j < all.len() implies {
        let (upper, lower) = (#[trigger] all[i], #[trigger] all[j]);
        match (upper.velocity, lower.velocity) {
            (
                RowVelocity::Measured { per_day: a, .. },
                RowVelocity::Measured { per_day: b, .. },
            ) => a >= b && (a == b ==> !text_lt(lower.full_name, upper.full_name)),
            (RowVelocity::Proxy { avg: a }, RowVelocity::Proxy { avg: b }) => a >= b && (a == b
                ==> !text_lt(lower.full_name, upper.full_name)),
            (RowVelocity::Measured { .. }, RowVelocity::Proxy { .. }) => true,
            (RowVelocity::Proxy { .. }, RowVelocity::Measured { .. }) => false,
        }
    } by {
        assert(!above(Sort::Velocity, all[j], all[i]));
    }
}

/// The rows of a board in an order of their own, carrying the same numbers.
pub fn ranked_rows(sort: Sort, rows: Vec<BoardRow>) -> (r: Vec<BoardRow>)
    ensures
        row_views(r@) == ranked(sort, row_views(rows@)),
{
    let ghost all = row_views(rows@);
    let mut left = rows;
    let mut out: Vec<BoardRow> = Vec::new();
    assert(row_views(out@) =~= ranked(sort, all.skip(all.len() as int)));
    assert(row_views(left@) =~= all.take(all.len() as int));
    while left.len() > 0
        invariant
            left@.len() <= all.len(),
            row_views(left@) == all.take(left@.len() as int),
            row_views(out@) == ranked(sort, all.skip(left@.len() as int)),
        decreases left.len(),
    {
        let n = left.len();
        let ghost was = left@;
        let ghost rest = row_views(out@);
        let row = match left.pop() {
            Some(row) => row,
            None => return out,
        };
        proof {
            assert(row_views(was)[n - 1] == row@);
            assert(all.take(n as int)[n - 1] == all[n - 1]);
            assert(row_views(left@) =~= all.take(n - 1)) by {
                assert forall|k: int| 0 <= k < n - 1 implies row_views(left@)[k] == all[k] by {
                    assert(row_views(was)[k] == all.take(n as int)[k]);
                    assert(left@[k] == was[k]);
                }
            }
            assert(all.skip(n - 1).drop_first() =~= all.skip(n as int));
            assert(all.skip(n - 1)[0] == row@);
        }
        let mut at: usize = 0;
        assert(rest.skip(0) =~= rest);
        while at < out.len() && stands_above(sort, &out[at], &row)
            invariant
                at <= out.len(),
                rest == row_views(out@),
                rows_above(sort, rest, row@) == at + rows_above(sort, rest.skip(at as int), row@),
            decreases out.len() - at,
        {
            assert(rest.skip(at as int)[0] == out@[at as int]@);
            assert(rest.skip(at as int).drop_first() =~= rest.skip(at + 1));
            at += 1;
        }
        proof {
            if at < out.len() {
                assert(rest.skip(at as int)[0] == out@[at as int]@);
            } else {
                assert(rest.skip(at as int).len() == 0);
            }
            assert(rows_above(sort, rest, row@) == at);
        }
        out.insert(at, row);
        assert(row_views(out@) =~= rest.insert(at as int, row@));
    }
    assert(all.skip(0) =~= all);
    out
}

// ---------------------------------------------------------------- the board itself

/// Whether a series sits on the board: somebody asked for it, or it is large enough.
pub open spec fn on_board(s: SeriesView) -> bool {
    s.lane == "embed"@ || s.lane == "manual"@ || (s.readings.len() > 0 && s.readings.last().stars
        >= BOARD_FLOOR)
}

fn sits_on_board(s: &Series) -> (r: bool)
    ensures
        r == on_board(s@),
{
    if same(s.lane.as_str(), "embed") || same(s.lane.as_str(), "manual") {
        return true;
    }
    let n = s.readings.len();
    n > 0 && s.readings[n - 1].stars >= BOARD_FLOOR
}

/// The rates of every series that has one: the pool that percentiles are taken from.
pub open spec fn fleet(series: Seq<SeriesView>) -> Seq<i64>
    decreases series.len(),
{
    if series.len() == 0 {
        Seq::empty()
    } else {
        let head = fleet(series.drop_last());
        match series_rate(series.last().readings) {
            Some(rate) => head.push(rate as i64),
            None => head,
        }
    }
}

pub fn fleet_velocities(series: &Vec<Series>) -> (r: Vec<i64>)
    ensures
        r@ == fleet(series_views(series@)),
{
    let ghost all = series_views(series@);
    let mut out: Vec<i64> = Vec::new();
    let mut i: usize = 0;
    assert(all.take(0) =~= Seq::<SeriesView>::empty());
    while i < series.len()
        invariant
            i <= series.len(),
            all == series_views(series@),
            out@ == fleet(all.take(i as int)),
        decreases series.len() - i,
    {
        assert(all.take(i + 1).drop_last() =~= all.take(i as int));
        assert(all.take(i + 1).last() == series@[i as int]@);
        if let Some(rate) = series_velocity(&series[i].readings) {
            out.push(rate);
        }
        i += 1;
    }
    assert(all.take(i as int) =~= all);
    out
}

/// The rate of a series that has one.
pub open spec fn rate_of(s: SeriesView) -> i64 {
    series_rate(s.readings)->0 as i64
}

/// The pool holds the rate of every series that has one, whatever its sign, once for each of
/// them and nothing else: standing still and declining are measured like a gain.
pub proof fn law_the_pool_holds_every_measured_rate(series: Seq<SeriesView>, rate: int)
    ensures
        fleet(series) == series.filter(|s: SeriesView| series_rate(s.readings) is Some).map_values(
            |s: SeriesView| rate_of(s),
        ),
        fleet(series).len() == series.filter(
            |s: SeriesView| series_rate(s.readings) is Some,
        ).len(),
        fleet(series).filter(|r: i64| r == rate).len() == series.filter(
            |s: SeriesView| series_rate(s.readings) == Some(rate),
        ).len(),
    decreases series.len(),
{
    reveal(Seq::filter);
    let has = |s: SeriesView| series_rate(s.readings) is Some;
    let value = |s: SeriesView| rate_of(s);
    if series.len() == 0 {
        assert(fleet(series) =~= series.filter(has).map_values(value));
    } else {
        let rest = series.drop_last();
        let last = series.last();
        law_the_pool_holds_every_measured_rate(rest, rate);
        crate::velocity::lemma_series_rate_fits(last.readings);
        if has(last) {
            assert(series.filter(has) == rest.filter(has).push(last));
            assert(fleet(series).drop_last() =~= fleet(rest));
            assert(rest.filter(has).push(last).map_values(value) =~= rest.filter(has).map_values(
                value,
            ).push(value(last)));
        }
    }
}

/// A percentile compares a rate with every series that has one: how many of them are at least as
/// fast, one at the least, out of how many there are.
pub proof fn law_percentiles_count_the_measured_series(series: Seq<SeriesView>, velocity: int)
    requires
        series.len() <= u64::MAX,
    ensures
        ({
            let measured = series.filter(|s: SeriesView| series_rate(s.readings) is Some).len();
            let as_fast = series.filter(
                |s: SeriesView| series_rate(s.readings) matches Some(rate) && rate >= velocity,
            ).len();
            let share = share_of(fleet(series), velocity);
            &&& measured == 0 ==> share == (Share { ahead: 1, pool: 1 })
            &&& measured > 0 ==> share.pool == measured && share.ahead == if as_fast == 0 {
                1
            } else {
                as_fast
            }
        }),
{
    law_the_pool_holds_every_measured_rate(series, velocity);
    lemma_pool_counts(series, velocity);
    lemma_filter_no_longer(series, |s: SeriesView| series_rate(s.readings) is Some);
    if fleet(series).len() > 0 {
        crate::velocity::law_shares_count_who_is_as_fast(fleet(series), velocity);
    }
}

proof fn lemma_filter_no_longer(series: Seq<SeriesView>, keep: spec_fn(SeriesView) -> bool)
    ensures
        series.filter(keep).len() <= series.len(),
    decreases series.len(),
{
    reveal(Seq::filter);
    if series.len() > 0 {
        lemma_filter_no_longer(series.drop_last(), keep);
    }
}

proof fn lemma_pool_counts(series: Seq<SeriesView>, velocity: int)
    ensures
        fleet(series).filter(|rate: i64| rate >= velocity).len() == series.filter(
            |s: SeriesView| series_rate(s.readings) matches Some(rate) && rate >= velocity,
        ).len(),
    decreases series.len(),
{
    reveal(Seq::filter);
    if series.len() > 0 {
        lemma_pool_counts(series.drop_last(), velocity);
        crate::velocity::lemma_series_rate_fits(series.last().readings);
        if series_rate(series.last().readings) is Some {
            assert(fleet(series).drop_last() =~= fleet(series.drop_last()));
        }
    }
}

/// Where a velocity sits among every repo that can currently be measured.
pub fn percentile(series: &Vec<Series>, velocity: i64) -> (r: Share)
    ensures
        r == share_of(fleet(series_views(series@)), velocity as int),
        0 < r.ahead <= r.pool,
{
    percentile_of(&fleet_velocities(series), velocity)
}

/// The furthest that any measured row of the board moved, which sets one vertical scale for
/// every minispark. Rows only: a rocket that the page never draws must not flatten it.
pub open spec fn shared_range(series: Seq<SeriesView>, now: int) -> Option<u64>
    decreases series.len(),
{
    if series.len() == 0 {
        None
    } else {
        let head = shared_range(series.drop_last(), now);
        let s = series.last();
        let range = spread(daily(s.readings, now - SPARK_WINDOW)) as u64;
        if series_rate(s.readings) is None || !on_board(s) {
            head
        } else {
            match head {
                Some(most) => if range > most {
                    Some(range)
                } else {
                    head
                },
                None => Some(range),
            }
        }
    }
}

fn widest_range(series: &Vec<Series>, now: i64) -> (r: Option<u64>)
    requires
        now - SPARK_WINDOW >= i64::MIN,
    ensures
        r == shared_range(series_views(series@), now as int),
{
    let ghost all = series_views(series@);
    let mut most: Option<u64> = None;
    let mut i: usize = 0;
    assert(all.take(0) =~= Seq::<SeriesView>::empty());
    while i < series.len()
        invariant
            i <= series.len(),
            all == series_views(series@),
            now - SPARK_WINDOW >= i64::MIN,
            most == shared_range(all.take(i as int), now as int),
        decreases series.len() - i,
    {
        assert(all.take(i + 1).drop_last() =~= all.take(i as int));
        assert(all.take(i + 1).last() == series@[i as int]@);
        let s = &series[i];
        if series_velocity(&s.readings).is_some() && sits_on_board(s) {
            let range = spark_range(&s.readings, now);
            most = match most {
                Some(so_far) => if range > so_far {
                    Some(range)
                } else {
                    Some(so_far)
                },
                None => Some(range),
            };
        }
        i += 1;
    }
    assert(all.take(i as int) =~= all);
    most
}

/// The row of a series. Nothing measured: a young repo still has an honest average, and an old
/// one has no number at all, so it has no row.
pub open spec fn row_of(s: SeriesView, now: int, pool: Seq<i64>, range: Option<u64>) -> Option<
    RowView,
> {
    if s.readings.len() == 0 || !on_board(s) {
        None
    } else {
        let latest = s.readings.last();
        match series_rate(s.readings) {
            Some(rate) => Some(
                RowView {
                    full_name: s.full_name,
                    language: s.language,
                    stars: latest.stars as int,
                    velocity: RowVelocity::Measured {
                        per_day: rate as i64,
                        top_percent: share_of(pool, rate),
                    },
                    spark: spark_line(s.readings, now, mini_region(), range),
                },
            ),
            None => match proxy_rate(s.created_at, latest.stars as int, now) {
                Some(avg) => Some(
                    RowView {
                        full_name: s.full_name,
                        language: s.language,
                        stars: latest.stars as int,
                        velocity: RowVelocity::Proxy { avg: avg as i64 },
                        spark: Seq::empty(),
                    },
                ),
                None => None,
            },
        }
    }
}

/// The rows that a rule gives for the series of a list, where it gives one.
pub open spec fn rows_by(
    series: Seq<SeriesView>,
    row: spec_fn(SeriesView) -> Option<RowView>,
) -> Seq<RowView>
    decreases series.len(),
{
    if series.len() == 0 {
        Seq::empty()
    } else {
        let head = rows_by(series.drop_last(), row);
        match row(series.last()) {
            Some(last) => head.push(last),
            None => head,
        }
    }
}

/// The rows of all series that have one.
pub open spec fn rows_of(
    series: Seq<SeriesView>,
    now: int,
    pool: Seq<i64>,
    range: Option<u64>,
) -> Seq<RowView> {
    rows_by(series, |s: SeriesView| row_of(s, now, pool, range))
}

/// The newest reading of all series on the board.
pub open spec fn newest(series: Seq<SeriesView>) -> Option<Seq<char>>
    decreases series.len(),
{
    if series.len() == 0 {
        None
    } else {
        let head = newest(series.drop_last());
        let s = series.last();
        if s.readings.len() == 0 || !on_board(s) {
            head
        } else {
            match head {
                Some(ts) => if text_lt(ts, s.readings.last().ts@) {
                    Some(s.readings.last().ts@)
                } else {
                    head
                },
                None => Some(s.readings.last().ts@),
            }
        }
    }
}

/// The rows of the board at a moment, before they are put in order.
pub open spec fn board_rows(series: Seq<SeriesView>, now: int) -> Seq<RowView> {
    rows_of(series, now, fleet(series), shared_range(series, now))
}

fn board_row(s: &Series, now: i64, pool: &Vec<i64>, range: Option<u64>) -> (r: Option<BoardRow>)
    requires
        now - SPARK_WINDOW >= i64::MIN,
    ensures
        match r {
            Some(row) => row_of(s@, now as int, pool@, range) == Some(row@),
            None => row_of(s@, now as int, pool@, range) is None,
        },
        r matches Some(row) ==> row.velocity.wf(),
{
    let n = s.readings.len();
    if n == 0 || !sits_on_board(s) {
        return None;
    }
    let latest = &s.readings[n - 1];
    match series_velocity(&s.readings) {
        Some(per_day) => Some(
            BoardRow {
                full_name: s.full_name.clone(),
                language: clone_text(&s.language),
                stars: latest.stars,
                velocity: RowVelocity::Measured {
                    per_day,
                    top_percent: percentile_of(pool, per_day),
                },
                spark: spark_points(&s.readings, now, &mini_spark(), range),
            },
        ),
        None => match proxy_average(lent_text(&s.created_at), latest.stars, now) {
            Some(avg) => {
                let spark: Vec<Point> = Vec::new();
                assert(spark@ =~= Seq::<Point>::empty());
                Some(
                    BoardRow {
                        full_name: s.full_name.clone(),
                        language: clone_text(&s.language),
                        stars: latest.stars,
                        velocity: RowVelocity::Proxy { avg },
                        spark,
                    },
                )
            },
            None => None,
        },
    }
}

/// The leaderboard of the fleet's recent readings.
///
/// Tracked wider than ranked: a repo under the floor that nobody asked for feeds the
/// percentile pool, not the page. Every row above the floor is here, not a top hundred: a card
/// reading "top 80% velocity" belongs to a repo no short list would ever print.
pub fn board(series: &Vec<Series>, now: i64) -> (r: Board)
    requires
        now - SPARK_WINDOW >= i64::MIN,
    ensures
        r.wf(),
        row_views(r.rows@) == ranked(Sort::Velocity, board_rows(series_views(series@), now as int)),
        opt_text(r.through) == newest(series_views(series@)),
{
    let ghost all = series_views(series@);
    let pool = fleet_velocities(series);
    let range = widest_range(series, now);
    let mut through: Option<String> = None;
    let mut rows: Vec<BoardRow> = Vec::new();
    let mut i: usize = 0;
    assert(all.take(0) =~= Seq::<SeriesView>::empty());
    assert(row_views(rows@) =~= Seq::<RowView>::empty());
    while i < series.len()
        invariant
            i <= series.len(),
            all == series_views(series@),
            now - SPARK_WINDOW >= i64::MIN,
            pool@ == fleet(all),
            range == shared_range(all, now as int),
            row_views(rows@) == rows_of(all.take(i as int), now as int, pool@, range),
            rows_wf(row_views(rows@)),
            opt_text(through) == newest(all.take(i as int)),
        decreases series.len() - i,
    {
        assert(all.take(i + 1).drop_last() =~= all.take(i as int));
        assert(all.take(i + 1).last() == series@[i as int]@);
        let s = &series[i];
        let n = s.readings.len();
        if n > 0 && sits_on_board(s) {
            let ts = &s.readings[n - 1].ts;
            let newer = match &through {
                Some(so_far) => sorts_before(so_far.as_str(), ts.as_str()),
                None => true,
            };
            if newer {
                through = Some(ts.clone());
            }
        }
        let ghost was = rows@;
        if let Some(row) = board_row(s, now, &pool, range) {
            rows.push(row);
            assert(row_views(rows@) =~= row_views(was).push(row@));
        }
        i += 1;
    }
    assert(all.take(i as int) =~= all);
    proof {
        lemma_ranking_keeps_rows_wf(Sort::Velocity, row_views(rows@));
    }
    Board { rows: ranked_rows(Sort::Velocity, rows), through }
}

/// The board in the order that a visitor asked for.
pub fn sorted_board(board: Board, sort: Sort) -> (r: Board)
    ensures
        board.wf() ==> r.wf(),
        sort == Sort::Velocity ==> r == board,
        sort == Sort::Stars ==> row_views(r.rows@) == ranked(Sort::Stars, row_views(board.rows@)),
        r.through == board.through,
{
    proof {
        if board.wf() {
            lemma_ranking_keeps_rows_wf(sort, row_views(board.rows@));
        }
    }
    match sort {
        Sort::Velocity => board,
        Sort::Stars => Board {
            rows: ranked_rows(Sort::Stars, board.rows),
            through: board.through,
        },
    }
}

/// What holds of every row that a rule gives holds of all of them together.
proof fn lemma_rows_by_all(
    series: Seq<SeriesView>,
    row: spec_fn(SeriesView) -> Option<RowView>,
    holds: spec_fn(RowView) -> bool,
)
    requires
        forall|s: SeriesView| #[trigger] row(s) matches Some(r) ==> holds(r),
    ensures
        forall|k: int| 0 <= k < rows_by(series, row).len() ==> holds(#[trigger] rows_by(series, row)[k]),
    decreases series.len(),
{
    if series.len() > 0 {
        let head = rows_by(series.drop_last(), row);
        lemma_rows_by_all(series.drop_last(), row, holds);
        assert forall|k: int| 0 <= k < rows_by(series, row).len() implies holds(
            #[trigger] rows_by(series, row)[k],
        ) by {
            if k < head.len() {
                assert(rows_by(series, row)[k] == head[k]);
            } else {
                assert(row(series.last()) == Some(rows_by(series, row)[k]));
            }
        }
    }
}

/// Whether a row's percentile is its rate's share of a pool.
spec fn ranked_in(pool: Seq<i64>, row: RowView) -> bool {
    row.velocity matches RowVelocity::Measured { per_day, top_percent } ==> top_percent == share_of(
        pool,
        per_day as int,
    )
}

proof fn lemma_row_is_ranked_in(s: SeriesView, now: int, pool: Seq<i64>, range: Option<u64>)
    ensures
        row_of(s, now, pool, range) matches Some(row) ==> ranked_in(pool, row),
{
    crate::velocity::lemma_series_rate_fits(s.readings);
}

proof fn lemma_rows_share_a_pool(
    series: Seq<SeriesView>,
    now: int,
    pool: Seq<i64>,
    range: Option<u64>,
)
    ensures
        forall|k: int|
            0 <= k < rows_of(series, now, pool, range).len() ==> ranked_in(
                pool,
                #[trigger] rows_of(series, now, pool, range)[k],
            ),
{
    let row = |s: SeriesView| row_of(s, now, pool, range);
    let holds = |r: RowView| ranked_in(pool, r);
    assert forall|s: SeriesView| #[trigger] row(s) matches Some(r) ==> holds(r) by {
        lemma_row_is_ranked_in(s, now, pool, range);
    }
    lemma_rows_by_all(series, row, holds);
    assert forall|k: int| 0 <= k < rows_of(series, now, pool, range).len() implies ranked_in(
        pool,
        #[trigger] rows_of(series, now, pool, range)[k],
    ) by {
        assert(holds(rows_by(series, row)[k]));
    }
}

/// Every repo that has an honest number and belongs on the board is on it, with its own row.
pub proof fn law_every_number_has_a_row(series: Seq<SeriesView>, now: int, k: int)
    requires
        0 <= k < series.len(),
        row_of(series[k], now, fleet(series), shared_range(series, now)) is Some,
    ensures
        ranked(Sort::Velocity, board_rows(series, now)).contains(
            row_of(series[k], now, fleet(series), shared_range(series, now))->0,
        ),
{
    broadcast use vstd::seq_lib::group_to_multiset_ensures;

    let pool = fleet(series);
    let range = shared_range(series, now);
    let unsorted = board_rows(series, now);
    let row = row_of(series[k], now, pool, range)->0;
    lemma_row_is_kept(series, |s: SeriesView| row_of(s, now, pool, range), k);
    law_boards_are_in_order(Sort::Velocity, unsorted);
    assert(unsorted.to_multiset().count(row) > 0);
    assert(ranked(Sort::Velocity, unsorted).to_multiset().count(row) > 0);
}

proof fn lemma_row_is_kept(
    series: Seq<SeriesView>,
    row: spec_fn(SeriesView) -> Option<RowView>,
    k: int,
)
    requires
        0 <= k < series.len(),
        row(series[k]) is Some,
    ensures
        rows_by(series, row).contains(row(series[k])->0),
    decreases series.len(),
{
    let head = rows_by(series.drop_last(), row);
    let all = rows_by(series, row);
    if k == series.len() - 1 {
        assert(all[all.len() - 1] == row(series[k])->0);
    } else {
        assert(series.drop_last()[k] == series[k]);
        lemma_row_is_kept(series.drop_last(), row, k);
        let i = choose|i: int| 0 <= i < head.len() && head[i] == row(series[k])->0;
        assert(all[i] == head[i]);
    }
}

/// Who has a row: a series that somebody asked for, at any size, or that has two thousand stars,
/// where it has a rate or at least an average. The row says of it what its last reading says, and
/// a measured rate comes before an average.
pub proof fn law_a_row_says_what_was_read(
    s: SeriesView,
    now: int,
    pool: Seq<i64>,
    range: Option<u64>,
)
    ensures
        row_of(s, now, pool, range) is Some <==> {
            &&& asked_or_large(s)
            &&& series_rate(s.readings) is Some || proxy_rate(
                s.created_at,
                s.readings.last().stars as int,
                now,
            ) is Some
        },
        row_of(s, now, pool, range) matches Some(row) ==> {
            &&& row.full_name == s.full_name
            &&& row.language == s.language
            &&& row.stars == s.readings.last().stars
            &&& match series_rate(s.readings) {
                Some(rate) => {
                    &&& row.velocity matches RowVelocity::Measured { per_day, top_percent }
                    &&& per_day == rate
                    &&& top_percent == share_of(pool, rate)
                    &&& row.spark == spark_line(s.readings, now, mini_region(), range)
                },
                None => {
                    &&& row.velocity matches RowVelocity::Proxy { avg }
                    &&& proxy_rate(s.created_at, s.readings.last().stars as int, now) matches Some(
                        average,
                    )
                    &&& i64::MIN <= average <= i64::MAX ==> avg == average
                    &&& row.spark.len() == 0
                },
            }
        },
{
    crate::velocity::lemma_series_rate_fits(s.readings);
}

/// The board has a row for every series that has one and no other, and every row that it shows is
/// of a series that was gathered.
pub proof fn law_rows_are_of_series(series: Seq<SeriesView>, now: int)
    ensures
        ({
            let pool = fleet(series);
            let range = shared_range(series, now);
            let rows = ranked(Sort::Velocity, board_rows(series, now));
            &&& rows.len() == series.filter(
                |s: SeriesView| row_of(s, now, pool, range) is Some,
            ).len()
            &&& forall|i: int|
                0 <= i < rows.len() ==> exists|k: int|
                    0 <= k < series.len() && #[trigger] row_of(series[k], now, pool, range) == Some(
                        #[trigger] rows[i],
                    )
        }),
{
    broadcast use vstd::seq_lib::group_to_multiset_ensures;

    let pool = fleet(series);
    let range = shared_range(series, now);
    let unsorted = board_rows(series, now);
    let rows = ranked(Sort::Velocity, unsorted);
    let row = |s: SeriesView| row_of(s, now, pool, range);
    lemma_rows_by_counts(series, row);
    law_boards_are_in_order(Sort::Velocity, unsorted);
    assert(rows.len() == unsorted.len()) by {
        assert(rows.to_multiset().len() == rows.len());
        assert(unsorted.to_multiset().len() == unsorted.len());
    }
    lemma_same_filter(
        series,
        |s: SeriesView| row(s) is Some,
        |s: SeriesView| row_of(s, now, pool, range) is Some,
    );
    assert forall|i: int| 0 <= i < rows.len() implies exists|k: int|
        0 <= k < series.len() && #[trigger] row_of(series[k], now, pool, range) == Some(
            #[trigger] rows[i],
        ) by {
        assert(rows.contains(rows[i]));
        assert(rows.to_multiset().count(rows[i]) > 0);
        assert(unsorted.contains(rows[i]));
        let j = choose|j: int| 0 <= j < unsorted.len() && unsorted[j] == rows[i];
        let k = lemma_row_has_a_series(series, row, j);
        assert(row_of(series[k], now, pool, range) == row(series[k]));
    }
}

proof fn lemma_same_filter(
    series: Seq<SeriesView>,
    one: spec_fn(SeriesView) -> bool,
    other: spec_fn(SeriesView) -> bool,
)
    requires
        forall|s: SeriesView| #[trigger] one(s) == other(s),
    ensures
        series.filter(one) == series.filter(other),
    decreases series.len(),
{
    reveal(Seq::filter);
    if series.len() > 0 {
        lemma_same_filter(series.drop_last(), one, other);
        assert(one(series.last()) == other(series.last()));
    }
}

proof fn lemma_rows_by_counts(
    series: Seq<SeriesView>,
    row: spec_fn(SeriesView) -> Option<RowView>,
)
    ensures
        rows_by(series, row).len() == series.filter(|s: SeriesView| row(s) is Some).len(),
    decreases series.len(),
{
    reveal(Seq::filter);
    if series.len() > 0 {
        lemma_rows_by_counts(series.drop_last(), row);
    }
}

proof fn lemma_row_has_a_series(
    series: Seq<SeriesView>,
    row: spec_fn(SeriesView) -> Option<RowView>,
    i: int,
) -> (k: int)
    requires
        0 <= i < rows_by(series, row).len(),
    ensures
        0 <= k < series.len(),
        row(series[k]) == Some(rows_by(series, row)[i]),
    decreases series.len(),
{
    let head = rows_by(series.drop_last(), row);
    if i < head.len() {
        let k = lemma_row_has_a_series(series.drop_last(), row, i);
        assert(series.drop_last()[k] == series[k]);
        k
    } else {
        series.len() - 1
    }
}

/// Whether a series that was read has a place on the board: somebody asked for it, or it has two
/// thousand stars.
pub open spec fn asked_or_large(s: SeriesView) -> bool {
    s.readings.len() > 0 && (s.lane == "embed"@ || s.lane == "manual"@ || s.readings.last().stars
        >= 2_000)
}

/// Whether a series is drawn on the board: it has a place there, and it was measured.
pub open spec fn drawn_on_board(s: SeriesView) -> bool {
    asked_or_large(s) && series_rate(s.readings) is Some
}

/// The largest of the numbers that a list has.
spec fn largest(list: Seq<Option<u64>>) -> Option<u64>
    decreases list.len(),
{
    if list.len() == 0 {
        None
    } else {
        let head = largest(list.drop_last());
        match (head, list.last()) {
            (Some(most), Some(n)) => if n > most {
                Some(n)
            } else {
                head
            },
            (None, n) => n,
            (head, None) => head,
        }
    }
}

proof fn lemma_largest(list: Seq<Option<u64>>)
    ensures
        largest(list) is Some <==> exists|k: int| 0 <= k < list.len() && (#[trigger] list[k]) is Some,
        largest(list) matches Some(most) ==> {
            &&& forall|k: int|
                0 <= k < list.len() ==> ((#[trigger] list[k]) matches Some(n) ==> n <= most)
            &&& exists|k: int| 0 <= k < list.len() && (#[trigger] list[k]) == Some(most)
        },
    decreases list.len(),
{
    if list.len() > 0 {
        let rest = list.drop_last();
        let n = list.len() - 1;
        lemma_largest(rest);
        assert(list[n] == list.last());
        assert(forall|k: int| 0 <= k < n ==> #[trigger] list[k] == rest[k]);
        assert(forall|k: int| 0 <= k < n ==> #[trigger] rest[k] == list[k]);
    }
}

/// How far a row moved, where the board draws it.
pub open spec fn drawn_range(s: SeriesView, now: int) -> Option<u64> {
    if drawn_on_board(s) {
        Some(spread(daily(s.readings, now - 30 * 86_400)) as u64)
    } else {
        None
    }
}

proof fn lemma_shared_is_largest(series: Seq<SeriesView>, now: int)
    ensures
        shared_range(series, now) == largest(
            series.map_values(|s: SeriesView| drawn_range(s, now)),
        ),
    decreases series.len(),
{
    let range = |s: SeriesView| drawn_range(s, now);
    if series.len() > 0 {
        lemma_shared_is_largest(series.drop_last(), now);
        assert(series.map_values(range).drop_last() =~= series.drop_last().map_values(range));
        assert(series.map_values(range).last() == drawn_range(series.last(), now));
    }
}

/// The scale of a board is set by the row that moved furthest: no row that is drawn moved
/// further, and one moved as far.
pub proof fn law_the_furthest_row_sets_the_scale(series: Seq<SeriesView>, now: int)
    ensures
        shared_range(series, now) is Some <==> exists|k: int|
            0 <= k < series.len() && drawn_on_board(#[trigger] series[k]),
        shared_range(series, now) matches Some(most) ==> {
            &&& forall|k: int|
                0 <= k < series.len() ==> (drawn_range(#[trigger] series[k], now) matches Some(range)
                    ==> range <= most)
            &&& exists|k: int|
                0 <= k < series.len() && drawn_range(#[trigger] series[k], now) == Some(most)
        },
{
    let ranges = series.map_values(|s: SeriesView| drawn_range(s, now));
    lemma_shared_is_largest(series, now);
    lemma_largest(ranges);
    assert(forall|k: int|
        0 <= k < series.len() ==> #[trigger] ranges[k] == drawn_range(series[k], now));
    assert(forall|k: int|
        0 <= k < series.len() ==> drawn_range(#[trigger] series[k], now) == ranges[k]);
}

/// The page is through the newest reading of all that are on it: none of them is newer, and it
/// is the last reading of one.
pub proof fn law_a_board_is_through_its_newest_reading(series: Seq<SeriesView>)
    ensures
        newest(series) is Some <==> exists|k: int|
            0 <= k < series.len() && asked_or_large(#[trigger] series[k]),
        newest(series) matches Some(ts) ==> {
            &&& forall|k: int|
                0 <= k < series.len() && asked_or_large(#[trigger] series[k]) ==> !text_lt(ts, series[k].readings.last().ts@)
            &&& exists|k: int|
                0 <= k < series.len() && asked_or_large(#[trigger] series[k]) && series[k].readings.last().ts@ == ts
        },
    decreases series.len(),
{
    if series.len() > 0 {
        let rest = series.drop_last();
        let n = series.len() - 1;
        law_a_board_is_through_its_newest_reading(rest);
        assert(series[n] == series.last());
        assert(forall|k: int| 0 <= k < n ==> #[trigger] series[k] == rest[k]);
        assert(forall|k: int| 0 <= k < n ==> #[trigger] rest[k] == series[k]);
        let last = series.last().readings.last().ts@;
        lemma_text_order_total(last, last);
        if let Some(ts) = newest(rest) {
            lemma_text_order_total(ts, last);
            let k = choose|k: int|
                0 <= k < rest.len() && asked_or_large(#[trigger] rest[k]) && rest[k].readings.last().ts@ == ts;
            assert(series[k] == rest[k]);
            assert forall|k: int|
                0 <= k < n && asked_or_large(#[trigger] series[k]) implies !text_lt(newest(series)->0, series[k].readings.last().ts@) by {
                assert(rest[k] == series[k]);
                let other = series[k].readings.last().ts@;
                lemma_text_order_total(ts, other);
                lemma_text_order_total(last, other);
                if text_lt(ts, last) && text_lt(last, other) {
                    lemma_text_order_transitive(ts, last, other);
                }
            }
        }
    }
}

/// The percentiles agree with the ranks: of two measured rows the upper one never claims to be
/// in a larger part of the pool than the lower one.
pub proof fn law_percentiles_follow_the_ranks(series: Seq<SeriesView>, now: int)
    requires
        fleet(series).len() <= u64::MAX,
    ensures
        ({
            let rows = ranked(Sort::Velocity, board_rows(series, now));
            forall|i: int, j: int|
                0 <= i < j < rows.len() ==> ((#[trigger] rows[i]).velocity matches RowVelocity::Measured {
                    top_percent: upper,
                    ..
                } ==> (#[trigger] rows[j]).velocity matches RowVelocity::Measured {
                    top_percent: lower,
                    ..
                } ==> upper.ahead <= lower.ahead && upper.pool == lower.pool)
        }),
{
    broadcast use vstd::seq_lib::group_to_multiset_ensures;

    let pool = fleet(series);
    let unsorted = board_rows(series, now);
    let rows = ranked(Sort::Velocity, unsorted);
    law_boards_are_in_order(Sort::Velocity, unsorted);
    lemma_rows_share_a_pool(series, now, pool, shared_range(series, now));
    assert forall|k: int| 0 <= k < rows.len() implies ranked_in(pool, #[trigger] rows[k]) by {
        assert(rows.contains(rows[k]));
        assert(rows.to_multiset().count(rows[k]) > 0);
        assert(unsorted.contains(rows[k]));
    }
    assert forall|i: int, j: int| 0 <= i < j < rows.len() implies ((
    #[trigger] rows[i]).velocity matches RowVelocity::Measured { top_percent: upper, .. } ==> (
    #[trigger] rows[j]).velocity matches RowVelocity::Measured { top_percent: lower, .. }
        ==> upper.ahead <= lower.ahead && upper.pool == lower.pool) by {
        assert(!above(Sort::Velocity, rows[j], rows[i]));
        assert(ranked_in(pool, rows[i]) && ranked_in(pool, rows[j]));
        if rows[i].velocity is Measured && rows[j].velocity is Measured {
            law_faster_never_ranks_worse(pool, rows[j].velocity.rank(), rows[i].velocity.rank());
        }
    }
}

} // verus!
