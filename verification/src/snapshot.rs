//! The daily run: a scan for young repos, the queue of enrollments, and a sweep over
//! everything that the scan did not just refresh. No series ends silently.

use vstd::prelude::*;

use crate::plural;
#[allow(unused_imports)]
use crate::counted;
#[allow(unused_imports)]
use crate::github::{Repo, SearchItem, Verdict, VerdictView, GRAPHQL_BATCH};
#[allow(unused_imports)]
use crate::serve::{Answer, EMBED_DAILY_BUDGET, MANUAL_DAILY_BUDGET};
#[allow(unused_imports)]
use crate::text::{
    decimal, integer, lemma_text_order_total, lemma_text_order_transitive, push_decimal, push_integer, sorts_before,
    text_lt,
};
#[allow(unused_imports)]
use crate::time::{
    date_of, date_utc, is_instant, iso8601, iso8601_utc, law_text_order_is_time_order,
};

verus! {

/// How old a repo may be for the scan to look for it, in seconds.
pub const MAX_AGE: i64 = 15_552_000;

/// How many star ranges a scan is split into.
pub const BUCKETS: usize = 7;

/// The search's own ceiling: ten pages of 100 is the 1000-result cap.
pub const PAGES: u32 = 10;

pub const PAGE_SIZE: usize = 100;

/// A repo the scan did not just refresh is due again after this long, in seconds.
pub const STALE_AFTER: i64 = 72_000;

/// The lane of a repo that the scan found.
pub const SCAN_LANE: &'static str = "scan";

/// How many queued names one run asks for: a day's worth of both lanes.
pub const DRAIN_LIMIT: u32 = EMBED_DAILY_BUDGET + MANUAL_DAILY_BUDGET;

// ---------------------------------------------------------------- the scan

/// The star range of a bucket. The search caps any one query at 1000 results, so the scan is
/// split by star range to keep every query under the cap.
pub open spec fn bucket_range(bucket: int) -> Seq<char> {
    if bucket == 0 {
        "500..700"@
    } else if bucket == 1 {
        "700..1100"@
    } else if bucket == 2 {
        "1100..2000"@
    } else if bucket == 3 {
        "2000..7000"@
    } else if bucket == 4 {
        "7000..25000"@
    } else if bucket == 5 {
        "25000..100000"@
    } else {
        ">100000"@
    }
}

fn bucket_text(bucket: usize) -> (r: &'static str)
    ensures
        r@ == bucket_range(bucket as int),
{
    if bucket == 0 {
        "500..700"
    } else if bucket == 1 {
        "700..1100"
    } else if bucket == 2 {
        "1100..2000"
    } else if bucket == 3 {
        "2000..7000"
    } else if bucket == 4 {
        "7000..25000"
    } else if bucket == 5 {
        "25000..100000"
    } else {
        ">100000"
    }
}

/// Where the star range of a bucket begins.
pub open spec fn bucket_floor(bucket: int) -> nat {
    if bucket <= 0 {
        500
    } else if bucket == 1 {
        700
    } else if bucket == 2 {
        1_100
    } else if bucket == 3 {
        2_000
    } else if bucket == 4 {
        7_000
    } else if bucket == 5 {
        25_000
    } else {
        100_000
    }
}

/// The buckets of a scan leave no star count out from five hundred on: each ends where the next
/// one begins, and the last one has no end.
pub proof fn law_the_buckets_of_a_scan_join(bucket: int)
    requires
        0 <= bucket < BUCKETS,
    ensures
        BUCKETS == 7,
        bucket_floor(0) == 500,
        bucket < 6 ==> bucket_floor(bucket) < bucket_floor(bucket + 1) && bucket_range(bucket)
            == decimal(bucket_floor(bucket)) + ".."@ + decimal(bucket_floor(bucket + 1)),
        bucket == 6 ==> bucket_range(bucket) == ">"@ + decimal(bucket_floor(bucket)),
{
    reveal_with_fuel(decimal, 7);
    reveal_strlit("..");
    reveal_strlit(">");
    reveal_strlit("500..700");
    reveal_strlit("700..1100");
    reveal_strlit("1100..2000");
    reveal_strlit("2000..7000");
    reveal_strlit("7000..25000");
    reveal_strlit("25000..100000");
    reveal_strlit(">100000");
    if bucket < 6 {
        assert(bucket_range(bucket) =~= decimal(bucket_floor(bucket)) + ".."@ + decimal(
            bucket_floor(bucket + 1),
        ));
    } else {
        assert(bucket_range(bucket) =~= ">"@ + decimal(bucket_floor(bucket)));
    }
}

/// How far a scan has come: the bucket and the page that are next, and what was found.
pub struct Scan {
    pub bucket: usize,
    pub page: u32,
    pub found: Vec<SearchItem>,
}

/// What a list of finds holds under an id.
pub open spec fn held(found: Seq<SearchItem>, id: int) -> Option<SearchItem>
    decreases found.len(),
{
    if found.len() == 0 {
        None
    } else if found.last().id == id {
        Some(found.last())
    } else {
        held(found.drop_last(), id)
    }
}

/// A list holds under an id the last item of that id, and nothing where it has none.
pub proof fn law_the_last_find_of_a_repo_counts(found: Seq<SearchItem>, id: int)
    ensures
        held(found, id) is None <==> forall|k: int|
            0 <= k < found.len() ==> (#[trigger] found[k]).id != id,
        forall|k: int|
            0 <= k < found.len() && (#[trigger] found[k]).id == id && (forall|j: int|
                k < j < found.len() ==> (#[trigger] found[j]).id != id) ==> held(found, id) == Some(
                found[k],
            ),
    decreases found.len(),
{
    if found.len() > 0 {
        let rest = found.drop_last();
        let n = found.len() - 1;
        law_the_last_find_of_a_repo_counts(rest, id);
        assert(found[n] == found.last());
        assert(forall|k: int| 0 <= k < n ==> #[trigger] rest[k] == found[k]);
        assert(forall|k: int| 0 <= k < n ==> #[trigger] found[k] == rest[k]);
        assert forall|k: int|
            0 <= k < found.len() && (#[trigger] found[k]).id == id && (forall|j: int|
                k < j < found.len() ==> (#[trigger] found[j]).id != id) implies held(found, id)
            == Some(found[k]) by {
            if k < n {
                assert(found[n].id != id);
                assert(rest[k] == found[k]);
                assert forall|j: int| k < j < rest.len() implies (#[trigger] rest[j]).id != id by {
                    assert(found[j].id != id);
                }
            }
        }
    }
}

/// Whether every repo is found once.
pub open spec fn found_once(found: Seq<SearchItem>) -> bool {
    forall|i: int, j: int|
        0 <= i < j < found.len() ==> (#[trigger] found[i]).id != (#[trigger] found[j]).id
}

impl Scan {
    pub open spec fn wf(self) -> bool {
        &&& self.bucket <= BUCKETS
        &&& 1 <= self.page <= PAGES
        &&& found_once(self.found@)
    }

    /// How many requests a scan has moved past, at most one for each page of each bucket.
    pub open spec fn progress(self) -> int {
        self.bucket * PAGES + self.page
    }

    /// A scan at its beginning.
    pub fn start() -> (r: Scan)
        ensures
            r.wf(),
            r.bucket == 0,
            r.page == 1,
            r.found@ == Seq::<SearchItem>::empty(),
    {
        let found: Vec<SearchItem> = Vec::new();
        assert(found@ =~= Seq::<SearchItem>::empty());
        Scan { bucket: 0, page: 1, found }
    }

    /// What to search for next, and which page of it; `None` once every bucket was read.
    pub fn request(&self, now: i64) -> (r: Option<(String, u32)>)
        requires
            now - MAX_AGE >= i64::MIN,
        ensures
            match r {
                Some((query, page)) => self.bucket < BUCKETS && page == self.page && query@
                    == "created:>"@ + date_of(now - MAX_AGE) + " stars:"@ + bucket_range(
                    self.bucket as int,
                ),
                None => self.bucket >= BUCKETS,
            },
            r matches Some((query, _)) ==> query@ == "created:>"@ + date_of(now - 180 * 86_400)
                + " stars:"@ + bucket_range(self.bucket as int),
    {
        if self.bucket >= BUCKETS {
            return None;
        }
        let mut query = "created:>".to_owned();
        query.append(date_utc(now - MAX_AGE).as_str());
        query.append(" stars:");
        query.append(bucket_text(self.bucket));
        Some((query, self.page))
    }

    /// Takes in a page of results: a repo that turns up again replaces what was found before,
    /// a full page is followed by the next one while there are any, and anything else ends
    /// the bucket.
    pub fn page(&mut self, items: Vec<SearchItem>)
        requires
            old(self).wf(),
            old(self).bucket < BUCKETS,
        ensures
            final(self).wf(),
            old(self).progress() < final(self).progress() <= BUCKETS * PAGES + 1,
            forall|id: int|
                #![trigger held(final(self).found@, id)]
                held(final(self).found@, id) == match held(items@, id) {
                    Some(item) => Some(item),
                    None => held(old(self).found@, id),
                },
            items@.len() == PAGE_SIZE && old(self).page < PAGES ==> final(self).bucket == old(
                self,
            ).bucket && final(self).page == old(self).page + 1,
            !(items@.len() == PAGE_SIZE && old(self).page < PAGES) ==> final(self).bucket == old(
                self,
            ).bucket + 1 && final(self).page == 1,
    {
        let full = items.len() == PAGE_SIZE;
        keep_all(&mut self.found, items);
        if full && self.page < PAGES {
            self.page = self.page + 1;
        } else {
            self.bucket = self.bucket + 1;
            self.page = 1;
        }
    }
}

/// A place that holds an id is what a list holds under it.
proof fn lemma_held(found: Seq<SearchItem>, id: int)
    requires
        found_once(found),
    ensures
        forall|k: int|
            0 <= k < found.len() && (#[trigger] found[k]).id == id ==> held(found, id) == Some(
                found[k],
            ),
        (forall|k: int| 0 <= k < found.len() ==> (#[trigger] found[k]).id != id) ==> held(
            found,
            id,
        ) is None,
    decreases found.len(),
{
    if found.len() > 0 {
        let rest = found.drop_last();
        lemma_held(rest, id);
        assert forall|k: int| 0 <= k < found.len() && (#[trigger] found[k]).id == id implies held(
            found,
            id,
        ) == Some(found[k]) by {
            if k < rest.len() {
                assert(rest[k].id == id);
                assert(found[k].id != found[found.len() - 1].id);
            }
        }
        if forall|k: int| 0 <= k < found.len() ==> (#[trigger] found[k]).id != id {
            assert forall|k: int| 0 <= k < rest.len() implies (#[trigger] rest[k]).id != id by {
                assert(found[k].id != id);
            }
            assert(found[found.len() - 1].id != id);
        }
    }
}

fn keep_item(found: &mut Vec<SearchItem>, item: SearchItem)
    requires
        found_once(old(found)@),
    ensures
        found_once(final(found)@),
        forall|id: int|
            #![trigger held(final(found)@, id)]
            held(final(found)@, id) == if id == item.id {
                Some(item)
            } else {
                held(old(found)@, id)
            },
{
    let ghost was = found@;
    let ghost kept = item;
    let mut at: usize = 0;
    while at < found.len() && found[at].id != item.id
        invariant
            at <= found.len(),
            found@ == was,
            item == kept,
            forall|k: int| 0 <= k < at ==> (#[trigger] was[k]).id != kept.id,
        decreases found.len() - at,
    {
        at += 1;
    }
    if at < found.len() {
        found.set(at, item);
        assert(found@ =~= was.update(at as int, kept));
    } else {
        found.push(item);
    }
    proof {
        assert forall|i: int, j: int| 0 <= i < j < found@.len() implies (#[trigger] found@[i]).id
            != (#[trigger] found@[j]).id by {
            if i < was.len() && j < was.len() {
                assert(was[i].id != was[j].id);
            }
        }
        assert forall|id: int| #![trigger held(found@, id)] held(found@, id) == if id == kept.id {
            Some(kept)
        } else {
            held(was, id)
        } by {
            lemma_held(found@, id);
            lemma_held(was, id);
            if id == kept.id {
                assert(found@[at as int].id == id);
            } else if exists|k: int| 0 <= k < was.len() && (#[trigger] was[k]).id == id {
                let k = choose|k: int| 0 <= k < was.len() && (#[trigger] was[k]).id == id;
                assert(found@[k] == was[k]);
                assert(found@[k].id == id);
            } else {
                assert forall|k: int| 0 <= k < found@.len() implies (#[trigger] found@[k]).id
                    != id by {
                    if k < was.len() {
                        assert(was[k].id != id);
                    }
                }
            }
        }
    }
}

fn keep_all(found: &mut Vec<SearchItem>, items: Vec<SearchItem>)
    requires
        found_once(old(found)@),
    ensures
        found_once(final(found)@),
        forall|id: int|
            #![trigger held(final(found)@, id)]
            held(final(found)@, id) == match held(items@, id) {
                Some(item) => Some(item),
                None => held(old(found)@, id),
            },
{
    let ghost was = found@;
    let ghost all = items@;
    let mut left: Vec<SearchItem> = Vec::new();
    let mut items = items;
    while items.len() > 0
        invariant
            items@ == all.take(items@.len() as int),
            items@.len() + left@.len() == all.len(),
            forall|k: int| 0 <= k < left@.len() ==> #[trigger] left@[k] == all[all.len() - 1 - k],
        decreases items.len(),
    {
        match items.pop() {
            Some(item) => left.push(item),
            None => return,
        }
    }
    let ghost mut taken: int = 0;
    assert(all.take(0) =~= Seq::<SearchItem>::empty());
    while left.len() > 0
        invariant
            left@.len() + taken == all.len(),
            0 <= taken,
            found_once(found@),
            forall|k: int| 0 <= k < left@.len() ==> #[trigger] left@[k] == all[all.len() - 1 - k],
            forall|id: int|
                #![trigger held(found@, id)]
                held(found@, id) == match held(all.take(taken), id) {
                    Some(item) => Some(item),
                    None => held(was, id),
                },
        decreases left.len(),
    {
        let ghost before = found@;
        let item = match left.pop() {
            Some(item) => item,
            None => return,
        };
        let ghost next = all.take(taken + 1);
        assert(item == all[taken]);
        assert(next.drop_last() =~= all.take(taken));
        assert(next.last() == item);
        let ghost kept = item;
        keep_item(found, item);
        proof {
            assert forall|id: int| #![trigger held(found@, id)] held(found@, id) == match held(
                next,
                id,
            ) {
                Some(item) => Some(item),
                None => held(was, id),
            } by {
                let earlier = held(before, id);
                assert(held(found@, id) == if id == kept.id {
                    Some(kept)
                } else {
                    earlier
                });
            }
            taken = taken + 1;
        }
    }
    assert(all.take(taken) =~= all);
}

/// Whether a list is in the order of the names.
pub open spec fn in_name_order(items: Seq<SearchItem>) -> bool {
    forall|i: int, j: int|
        0 <= i < j < items.len() ==> !text_lt(
            (#[trigger] items[j]).full_name@,
            (#[trigger] items[i]).full_name@,
        )
}

/// What a scan found, in the order of the names.
pub fn in_order(found: Vec<SearchItem>) -> (r: Vec<SearchItem>)
    ensures
        r@.to_multiset() == found@.to_multiset(),
        in_name_order(r@),
{
    let ghost all = found@;
    let mut left = found;
    let mut out: Vec<SearchItem> = Vec::new();
    proof {
        lemma_nothing_to_multiset(out@);
        assert(left@.to_multiset().add(out@.to_multiset()) =~= all.to_multiset());
    }
    while left.len() > 0
        invariant
            in_name_order(out@),
            left@.to_multiset().add(out@.to_multiset()) == all.to_multiset(),
        decreases left.len(),
    {
        let ghost rest = left@;
        let ghost was = out@;
        let item = match left.pop() {
            Some(item) => item,
            None => return out,
        };
        let ghost new = item;
        let mut at: usize = 0;
        while at < out.len() && !sorts_before(item.full_name.as_str(), out[at].full_name.as_str())
            invariant
                at <= out.len(),
                out@ == was,
                item == new,
                forall|k: int|
                    0 <= k < at ==> !text_lt(new.full_name@, (#[trigger] was[k]).full_name@),
            decreases out.len() - at,
        {
            at += 1;
        }
        proof {
            if at < was.len() {
                assert(text_lt(new.full_name@, was[at as int].full_name@));
            }
        }
        out.insert(at, item);
        proof {
            lemma_insert_to_multiset(was, at as int, new);
            lemma_insert_to_multiset(left@, left@.len() as int, new);
            assert(rest =~= left@.insert(left@.len() as int, new));
            assert(left@.to_multiset().add(out@.to_multiset()) =~= rest.to_multiset().add(
                was.to_multiset(),
            ));
            assert forall|i: int, j: int| 0 <= i < j < out@.len() implies !text_lt(
                (#[trigger] out@[j]).full_name@,
                (#[trigger] out@[i]).full_name@,
            ) by {
                let x = if i < at {
                    i
                } else {
                    i - 1
                };
                let y = if j < at {
                    j
                } else {
                    j - 1
                };
                if i == at {
                    assert(out@[j] == was[y]);
                    lemma_after_first(was, at as int, y, new.full_name@);
                } else if j == at {
                    assert(out@[i] == was[x]);
                } else {
                    assert(out@[i] == was[x] && out@[j] == was[y]);
                }
            }
        }
    }
    proof {
        lemma_nothing_to_multiset(left@);
        assert(out@.to_multiset() =~= all.to_multiset());
    }
    out
}

proof fn lemma_nothing_to_multiset(items: Seq<SearchItem>)
    requires
        items.len() == 0,
    ensures
        items.to_multiset() == vstd::multiset::Multiset::<SearchItem>::empty(),
{
    broadcast use vstd::seq_lib::group_to_multiset_ensures;

    assert(items.to_multiset() =~= vstd::multiset::Multiset::<SearchItem>::empty());
}

proof fn lemma_insert_to_multiset(items: Seq<SearchItem>, at: int, item: SearchItem)
    requires
        0 <= at <= items.len(),
    ensures
        items.insert(at, item).to_multiset() == items.to_multiset().insert(item),
{
    broadcast use vstd::seq_lib::group_to_multiset_ensures;

    let all = items.insert(at, item);
    assert(all.remove(at) =~= items);
    assert(all.contains(all[at]));
    assert(all.to_multiset() =~= items.to_multiset().insert(item));
}

/// A name that sorts before one of an ordered list sorts before none of those that precede it
/// from behind.
proof fn lemma_after_first(items: Seq<SearchItem>, first: int, later: int, name: Seq<char>)
    requires
        in_name_order(items),
        0 <= first <= later < items.len(),
        text_lt(name, items[first].full_name@),
    ensures
        !text_lt(items[later].full_name@, name),
{
    let a = items[first].full_name@;
    let b = items[later].full_name@;
    lemma_text_order_total(name, b);
    if text_lt(b, name) {
        lemma_text_order_transitive(b, name, a);
        if first < later {
            assert(!text_lt(items[later].full_name@, items[first].full_name@));
        } else {
            lemma_text_order_total(a, a);
        }
    }
}

/// How far the writing down of a scan has come.
#[derive(Debug, Clone, Copy, PartialEq, Eq)]
pub struct Recording {
    pub seen: usize,
    /// How many finds were gone through.
    pub at: usize,
    /// How many readings were new.
    pub appended: usize,
    /// How many finds opted out.
    pub declined: usize,
}

impl Recording {
    pub open spec fn wf(self) -> bool {
        self.appended + self.declined <= self.at <= self.seen
    }

    /// The writing down of so many finds.
    pub fn start(seen: usize) -> (r: Recording)
        ensures
            r.wf(),
            r == (Recording { seen, at: 0, appended: 0, declined: 0 }),
    {
        Recording { seen, at: 0, appended: 0, declined: 0 }
    }

    /// Whether the next find is written down. The search does not know who asked to be left
    /// alone.
    pub fn records(&mut self, opted_out: bool) -> (r: bool)
        requires
            old(self).wf(),
            old(self).at < old(self).seen,
        ensures
            final(self).wf(),
            r == !opted_out,
            final(self).seen == old(self).seen,
            final(self).at == old(self).at + 1,
            final(self).appended == old(self).appended,
            final(self).declined == old(self).declined + (if opted_out {
                1int
            } else {
                0
            }),
    {
        self.at = self.at + 1;
        if opted_out {
            self.declined = self.declined + 1;
            return false;
        }
        true
    }

    /// Counts a reading that was written, if it was new.
    pub fn wrote(&mut self, new: bool)
        requires
            old(self).wf(),
            old(self).appended + old(self).declined < old(self).at,
        ensures
            final(self).wf(),
            final(self).seen == old(self).seen,
            final(self).at == old(self).at,
            final(self).declined == old(self).declined,
            final(self).appended == old(self).appended + (if new {
                1int
            } else {
                0
            }),
    {
        if new {
            self.appended = self.appended + 1;
        }
    }

    /// What a run says of its scan.
    pub fn report(&self, ts: &str) -> (r: String)
        ensures
            r@ == ts@ + "  "@ + counted(self.seen as nat, "repo"@) + " seen, "@ + counted(
                self.appended as nat,
                "snapshot row"@,
            ) + " appended, "@ + decimal(self.declined as nat) + " opted out"@,
    {
        let mut out = ts.to_owned();
        out.append("  ");
        out.append(plural(self.seen, "repo").as_str());
        out.append(" seen, ");
        out.append(plural(self.appended, "snapshot row").as_str());
        out.append(" appended, ");
        push_decimal(&mut out, self.declined as u128);
        out.append(" opted out");
        out
    }
}

// ---------------------------------------------------------------- the queue

/// What to do about a queued name.
#[derive(Debug, Clone, PartialEq, Eq)]
pub enum Draining {
    /// Look up whether this repo, by its id, opted out.
    Checking(Repo),
    /// Record the repo under the lane that asked for it, and take its name off the queue.
    Recording { repo: Repo, lane: String },
    /// Take the name off the queue without a row: nobody can resolve it, or it resolved onto
    /// a repo that opted out. It would otherwise be retried forever.
    Dropping,
    /// Leave this name and all behind it for a later day.
    Stopping,
}

/// How far a drain has come, and what became of the queued names so far.
#[derive(Debug, Clone, Copy, PartialEq, Eq)]
pub struct Drain {
    pub queued: usize,
    pub enrolled: usize,
    pub dropped: usize,
    /// GitHub failed: the name that was asked for and all behind it wait for a later day.
    pub stopped: bool,
}

impl Drain {
    /// How many names have left the queue.
    pub open spec fn settled(self) -> int {
        self.enrolled + self.dropped
    }

    pub open spec fn wf(self) -> bool {
        self.settled() <= self.queued
    }

    /// Whether a name is still to be asked for.
    pub open spec fn goes_on(self) -> bool {
        !self.stopped && self.settled() < self.queued
    }

    /// A drain of so many queued names, oldest first.
    pub fn start(queued: usize) -> (r: Drain)
        ensures
            r.wf(),
            r == (Drain { queued, enrolled: 0, dropped: 0, stopped: false }),
    {
        Drain { queued, enrolled: 0, dropped: 0, stopped: false }
    }

    /// The place of the name to ask for next; `None` once all have left, or GitHub failed.
    pub fn next(&self) -> (r: Option<usize>)
        requires
            self.wf(),
        ensures
            match r {
                Some(at) => self.goes_on() && at == self.settled(),
                None => !self.goes_on(),
            },
    {
        if !self.stopped && self.enrolled + self.dropped < self.queued {
            Some(self.enrolled + self.dropped)
        } else {
            None
        }
    }

    /// What to do about the name that was asked for. A GitHub failure stops the drain with the
    /// rest still queued: they enroll on a later day, never dropped.
    pub fn answered(&mut self, answer: Answer) -> (r: Draining)
        requires
            old(self).wf(),
            old(self).goes_on(),
        ensures
            final(self).wf(),
            match answer {
                Answer::Found(repo) => r == Draining::Checking(repo) && *final(self) == *old(self),
                Answer::Missing => r == Draining::Dropping && *final(self) == (Drain {
                    dropped: (old(self).dropped + 1) as usize,
                    ..*old(self)
                }),
                Answer::Unreachable => r == Draining::Stopping && *final(self) == (Drain {
                    stopped: true,
                    ..*old(self)
                }),
            },
    {
        match answer {
            Answer::Found(repo) => Draining::Checking(repo),
            Answer::Missing => {
                self.dropped = self.dropped + 1;
                Draining::Dropping
            },
            Answer::Unreachable => {
                self.stopped = true;
                Draining::Stopping
            },
        }
    }

    /// What to do about a name that resolved, once its id was looked up. The lane is the one
    /// that the request arrived through, not the one that drains it.
    pub fn checked(&mut self, repo: Repo, lane: String, opted_out: bool) -> (r: Draining)
        requires
            old(self).wf(),
            old(self).goes_on(),
        ensures
            final(self).wf(),
            r == if opted_out {
                Draining::Dropping
            } else {
                (Draining::Recording { repo, lane })
            },
            *final(self) == if opted_out {
                (Drain { dropped: (old(self).dropped + 1) as usize, ..*old(self) })
            } else {
                (Drain { enrolled: (old(self).enrolled + 1) as usize, ..*old(self) })
            },
    {
        if opted_out {
            self.dropped = self.dropped + 1;
            Draining::Dropping
        } else {
            self.enrolled = self.enrolled + 1;
            Draining::Recording { repo, lane }
        }
    }

    /// What a run says of its queue, with so many names left in it.
    pub fn report(&self, left: i64) -> (r: String)
        ensures
            r@ == "queue: "@ + counted(self.enrolled as nat, "repo"@) + " enrolled, "@ + counted(
                self.dropped as nat,
                "name"@,
            ) + " dropped as unresolvable or opted out, "@ + integer(left as int)
                + " still waiting"@,
    {
        let mut out = "queue: ".to_owned();
        out.append(plural(self.enrolled, "repo").as_str());
        out.append(" enrolled, ");
        out.append(plural(self.dropped, "name").as_str());
        out.append(" dropped as unresolvable or opted out, ");
        push_integer(&mut out, left as i128);
        out.append(" still waiting");
        out
    }
}

// ---------------------------------------------------------------- the sweep

/// The moment before which a repo's latest reading makes it due.
pub fn stale_cutoff(now: i64) -> (r: String)
    requires
        now - STALE_AFTER >= i64::MIN,
    ensures
        r@ == iso8601(now - STALE_AFTER),
        r@ == iso8601(now - 20 * 3600),
{
    iso8601_utc(now - STALE_AFTER)
}

/// A repo is due from twenty hours after its latest reading on, so once a day and never twice
/// within half of one.
pub proof fn law_a_repo_is_due_once_a_day(now: int, read: int)
    requires
        is_instant(now - 72_000),
        is_instant(read),
    ensures
        text_lt(iso8601(read), iso8601(now - STALE_AFTER)) <==> now - read > 20 * 3600,
{
    law_text_order_is_time_order(read, now - 72_000);
}

/// What to do with a due repo.
#[derive(Debug, Clone, PartialEq, Eq)]
pub enum Sweeping {
    /// Record the reading. Renames heal here: the row is keyed by id, so the name just moves.
    Refresh(Repo),
    /// The repo is gone from our vantage point: its status flips, its series is kept.
    Retire,
    /// Neither refreshed nor retired; the text says why.
    Keep(String),
}

/// How far a sweep has come, and what became of the due repos so far.
pub struct Sweep {
    pub due: usize,
    /// How many due repos have got a verdict.
    pub at: usize,
    pub swept: usize,
    pub inactive: usize,
    pub blocked: usize,
    /// How many verdicts were none.
    pub failed: usize,
}

/// How many repos of a list of verdicts were found.
pub open spec fn found_in(v: Seq<VerdictView>) -> int
    decreases v.len(),
{
    if v.len() == 0 {
        0
    } else {
        found_in(v.drop_last()) + (if v.last() is Found {
            1int
        } else {
            0
        })
    }
}

/// How many repos of a list of verdicts are gone.
pub open spec fn gone_in(v: Seq<VerdictView>) -> int
    decreases v.len(),
{
    if v.len() == 0 {
        0
    } else {
        gone_in(v.drop_last()) + (if v.last() is Gone {
            1int
        } else {
            0
        })
    }
}

/// How many repos of a list of verdicts are blocked.
pub open spec fn blocked_in(v: Seq<VerdictView>) -> int
    decreases v.len(),
{
    if v.len() == 0 {
        0
    } else {
        blocked_in(v.drop_last()) + (if v.last() is Blocked {
            1int
        } else {
            0
        })
    }
}

/// How many repos of a list of verdicts got no reading.
pub open spec fn failed_in(v: Seq<VerdictView>) -> int
    decreases v.len(),
{
    if v.len() == 0 {
        0
    } else {
        failed_in(v.drop_last()) + (if v.last() is Failed {
            1int
        } else {
            0
        })
    }
}

impl Sweep {
    /// Every verdict is counted once.
    pub open spec fn wf(self) -> bool {
        &&& self.at <= self.due
        &&& self.swept + self.inactive + self.blocked + self.failed == self.at
    }

    /// Whether a sweep stands where a list of verdicts brings it.
    pub open spec fn after(self, verdicts: Seq<VerdictView>) -> bool {
        &&& self.at == verdicts.len()
        &&& self.swept == found_in(verdicts)
        &&& self.inactive == gone_in(verdicts)
        &&& self.blocked == blocked_in(verdicts)
        &&& self.failed == failed_in(verdicts)
    }

    /// A sweep over so many due repos.
    pub fn start(due: usize) -> (r: Sweep)
        ensures
            r.wf(),
            r.due == due,
            r.after(Seq::empty()),
    {
        Sweep { due, at: 0, swept: 0, inactive: 0, blocked: 0, failed: 0 }
    }

    /// The due repos that are asked for next, by their places; `None` once all were.
    pub fn batch(&self) -> (r: Option<(usize, usize)>)
        requires
            self.wf(),
        ensures
            match r {
                Some((start, end)) => start == self.at && start < end <= self.due && (end - start
                    == GRAPHQL_BATCH || (end == self.due && end - start < GRAPHQL_BATCH)),
                None => self.at == self.due,
            },
            r matches Some((start, end)) ==> end - start <= 25,
    {
        if self.at >= self.due {
            return None;
        }
        if self.due - self.at > GRAPHQL_BATCH {
            Some((self.at, self.at + GRAPHQL_BATCH))
        } else {
            Some((self.at, self.due))
        }
    }

    /// Counts the verdict on the next due repo, and says what to do with it.
    pub fn settle(&mut self, full_name: &str, verdict: Verdict) -> (r: Sweeping)
        requires
            old(self).wf(),
            old(self).at < old(self).due,
        ensures
            final(self).wf(),
            final(self).due == old(self).due,
            forall|so_far: Seq<VerdictView>| #[trigger]
                old(self).after(so_far) ==> final(self).after(so_far.push(verdict@)),
            match verdict {
                Verdict::Found(repo) => r == Sweeping::Refresh(repo),
                Verdict::Gone => r == Sweeping::Retire,
                Verdict::Blocked => r matches Sweeping::Keep(why) && why@ == "sweep: "@ + full_name@
                    + " is blocked, kept as due"@,
                Verdict::Failed(reason) => r matches Sweeping::Keep(why) && why@
                    == "sweep: no reading for "@ + full_name@ + " ("@ + reason@ + ")"@,
            },
    {
        let ghost said = verdict@;
        self.at = self.at + 1;
        let act = match verdict {
            Verdict::Found(repo) => {
                self.swept = self.swept + 1;
                Sweeping::Refresh(repo)
            },
            Verdict::Gone => {
                self.inactive = self.inactive + 1;
                Sweeping::Retire
            },
            Verdict::Blocked => {
                self.blocked = self.blocked + 1;
                let mut why = "sweep: ".to_owned();
                why.append(full_name);
                why.append(" is blocked, kept as due");
                Sweeping::Keep(why)
            },
            Verdict::Failed(reason) => {
                self.failed = self.failed + 1;
                let mut why = "sweep: no reading for ".to_owned();
                why.append(full_name);
                why.append(" (");
                why.append(reason.as_str());
                why.append(")");
                Sweeping::Keep(why)
            },
        };
        proof {
            assert forall|so_far: Seq<VerdictView>| #[trigger] old(self).after(
                so_far,
            ) implies self.after(so_far.push(said)) by {
                assert(so_far.push(said).drop_last() =~= so_far);
            }
        }
        act
    }

    /// How many due repos a sweep leaves without a reading, a retirement or a block.
    pub open spec fn left(self) -> int {
        self.due - self.swept - self.inactive - self.blocked
    }

    /// What a run says of its sweep.
    pub fn report(&self) -> (r: String)
        ensures
            r@ == "sweep: "@ + counted(self.swept as nat, "repo"@) + " refreshed, "@ + counted(
                self.inactive as nat,
                "repo"@,
            ) + " now inactive, "@ + decimal(self.blocked as nat) + " blocked, "@ + decimal(
                self.due as nat,
            ) + " due"@,
    {
        let mut out = "sweep: ".to_owned();
        out.append(plural(self.swept, "repo").as_str());
        out.append(" refreshed, ");
        out.append(plural(self.inactive, "repo").as_str());
        out.append(" now inactive, ");
        push_decimal(&mut out, self.blocked as u128);
        out.append(" blocked, ");
        push_decimal(&mut out, self.due as u128);
        out.append(" due");
        out
    }

    /// Why the run fails, if it does: a due repo that ends the pass without a reading is a day
    /// that cannot be had again. No tolerance fraction: one repo's missed day is as
    /// unrecoverable as a hundred. A standing block costs nothing.
    pub fn failure(&self) -> (r: Option<String>)
        requires
            self.wf(),
        ensures
            match r {
                Some(why) => self.left() > 0 && why@ == "sweep left "@ + decimal(self.left() as nat)
                    + " of "@ + decimal(self.due as nat)
                    + " due repos unread; those days cannot be backfilled"@,
                None => self.left() == 0,
            },
    {
        let unread = self.due - self.swept - self.inactive - self.blocked;
        if unread == 0 {
            return None;
        }
        let mut out = "sweep left ".to_owned();
        push_decimal(&mut out, unread as u128);
        out.append(" of ");
        push_decimal(&mut out, self.due as u128);
        out.append(" due repos unread; those days cannot be backfilled");
        Some(out)
    }
}

/// A sweep counts every verdict once, under what it says.
pub proof fn law_verdicts_are_counted_by_what_they_say(v: Seq<VerdictView>)
    ensures
        found_in(v) == v.filter(|x: VerdictView| x is Found).len(),
        gone_in(v) == v.filter(|x: VerdictView| x is Gone).len(),
        blocked_in(v) == v.filter(|x: VerdictView| x is Blocked).len(),
        failed_in(v) == v.filter(|x: VerdictView| x is Failed).len(),
        found_in(v) + gone_in(v) + blocked_in(v) + failed_in(v) == v.len(),
    decreases v.len(),
{
    reveal(Seq::filter);
    if v.len() > 0 {
        law_verdicts_are_counted_by_what_they_say(v.drop_last());
    }
}

/// What a sweep leaves unread is what it was due to read and neither read, retired nor found
/// blocked: what failed, and what it did not come to.
pub proof fn law_what_is_left_failed_or_was_not_reached(sweep: Sweep, verdicts: Seq<VerdictView>)
    requires
        sweep.wf(),
        sweep.after(verdicts),
    ensures
        sweep.left() == sweep.due - verdicts.len() + verdicts.filter(
            |x: VerdictView| x is Failed,
        ).len(),
{
    law_verdicts_are_counted_by_what_they_say(verdicts);
}

/// A run passes only if every due repo got a verdict and none of them was a failure: no series
/// ends silently.
pub proof fn law_no_due_repo_is_passed_over(sweep: Sweep, verdicts: Seq<VerdictView>)
    requires
        sweep.wf(),
        sweep.after(verdicts),
    ensures
        sweep.left() == 0 <==> verdicts.len() == sweep.due && forall|k: int|
            0 <= k < verdicts.len() ==> !((#[trigger] verdicts[k]) is Failed),
{
    lemma_no_failures(verdicts);
}

proof fn lemma_no_failures(v: Seq<VerdictView>)
    ensures
        failed_in(v) >= 0,
        failed_in(v) == 0 <==> forall|k: int| 0 <= k < v.len() ==> !((#[trigger] v[k]) is Failed),
    decreases v.len(),
{
    if v.len() > 0 {
        let rest = v.drop_last();
        lemma_no_failures(rest);
        if failed_in(v) == 0 {
            assert forall|k: int| 0 <= k < v.len() implies !((#[trigger] v[k]) is Failed) by {
                if k < rest.len() {
                    assert(!(rest[k] is Failed));
                }
            }
        }
        if forall|k: int| 0 <= k < v.len() ==> !((#[trigger] v[k]) is Failed) {
            assert forall|k: int| 0 <= k < rest.len() implies !((#[trigger] rest[k]) is Failed) by {
                assert(!(v[k] is Failed));
            }
            assert(!(v[v.len() - 1] is Failed));
        }
    }
}

} // verus!
