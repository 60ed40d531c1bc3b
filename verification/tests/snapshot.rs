//! The daily run against a store of plain rows and a GitHub that answers from a list.

use std::collections::VecDeque;

use afterglow::github::{batch_query, graphql_node, read_verdicts, Repo, SearchItem, Verdict, GRAPHQL_BATCH};
use afterglow::serve::Answer;
use afterglow::snapshot::{
    in_order, stale_cutoff, Drain, Draining, Recording, Scan, Sweep, Sweeping, DRAIN_LIMIT, PAGES, PAGE_SIZE,
};
use afterglow::time::parse_iso8601_utc;

const NOW: &str = "2026-07-31T00:00:00Z";

#[derive(Default)]
struct World {
    repos: Vec<(i64, String, String, String, Option<String>)>,
    snapshots: Vec<(i64, String, i64, Option<i64>)>,
    queue: Vec<(String, String, String)>,
    answers: VecDeque<Option<Repo>>,
    pages: VecDeque<Vec<SearchItem>>,
    bodies: VecDeque<String>,
    calls: usize,
}

fn repo(id: i64, full_name: &str, stars: i64, created_at: &str) -> Repo {
    Repo {
        id,
        full_name: full_name.to_string(),
        created_at: created_at.to_string(),
        stargazers_count: stars,
        forks_count: Some(3),
        open_issues_count: Some(4),
        subscribers_count: Some(5),
        pushed_at: Some(created_at.to_string()),
        language: Some("Rust".to_string()),
    }
}

fn item(id: i64, full_name: &str, stars: i64) -> SearchItem {
    SearchItem {
        id,
        full_name: full_name.to_string(),
        stargazers_count: stars,
        created_at: "2026-06-01T00:00:00Z".to_string(),
        forks_count: 3,
        open_issues_count: 4,
        pushed_at: None,
        language: Some("Rust".to_string()),
    }
}

impl World {
    fn track(&mut self, id: i64, name: &str, lane: &str, status: &str) {
        self.repos
            .push((id, name.to_string(), lane.to_string(), status.to_string(), None));
    }

    fn snapshot(&mut self, id: i64, ts: &str, stars: i64) {
        self.snapshots.push((id, ts.to_string(), stars, None));
    }

    fn queue(&mut self, name: &str, at: &str, lane: &str) {
        self.queue
            .push((name.to_string(), at.to_string(), lane.to_string()));
    }

    fn opted_out(&self, id: i64) -> bool {
        self.repos.iter().any(|r| r.0 == id && r.3 == "opted_out")
    }

    fn record(&mut self, repo: &Repo, lane: &str) {
        match self.repos.iter_mut().find(|r| r.0 == repo.id) {
            Some(row) => {
                row.1 = repo.full_name.clone();
                row.4 = repo.language.clone();
            }
            None => self.repos.push((
                repo.id,
                repo.full_name.clone(),
                lane.to_string(),
                "active".to_string(),
                repo.language.clone(),
            )),
        }
        self.snapshots.push((
            repo.id,
            NOW.to_string(),
            repo.stargazers_count,
            repo.subscribers_count,
        ));
    }

    fn scan(&mut self) -> Recording {
        let now = parse_iso8601_utc(NOW).unwrap();
        let mut scan = Scan::start();
        while scan.request(now).is_some() {
            self.calls += 1;
            scan.page(self.pages.pop_front().unwrap());
        }
        let items = in_order(scan.found);
        let mut recording = Recording::start(items.len());
        for it in items {
            if !recording.records(self.opted_out(it.id)) {
                continue;
            }
            let found = Repo {
                subscribers_count: None,
                ..repo(it.id, &it.full_name, it.stargazers_count, &it.created_at)
            };
            self.record(&found, "scan");
            recording.wrote(true);
        }
        recording
    }

    fn drain(&mut self) -> String {
        let mut queued = self.queue.clone();
        queued.sort_by(|a, b| (&a.1, &a.0).cmp(&(&b.1, &b.0)));
        queued.truncate(DRAIN_LIMIT as usize);
        let mut drain = Drain::start(queued.len());
        while let Some(at) = drain.next() {
            let (name, _, lane) = &queued[at];
            self.calls += 1;
            let mut next = drain.answered(match self.answers.pop_front() {
                Some(Some(repo)) => Answer::Found(repo),
                Some(None) => Answer::Missing,
                None => Answer::Unreachable,
            });
            if let Draining::Checking(repo) = next {
                let hidden = self.opted_out(repo.id);
                next = drain.checked(repo, lane.clone(), hidden);
            }
            if let Draining::Recording { repo, lane } = &next {
                self.record(repo, lane);
            }
            if next != Draining::Stopping {
                self.queue.retain(|q| q.0 != *name);
            }
        }
        drain.report(self.queue.len() as i64)
    }

    fn sweep(&mut self) -> (String, Option<String>) {
        let cutoff = stale_cutoff(parse_iso8601_utc(NOW).unwrap());
        let mut stale: Vec<(i64, String, String)> = self
            .repos
            .iter()
            .filter(|r| r.3 == "active")
            .filter(|r| {
                let newest = self.snapshots.iter().filter(|s| s.0 == r.0).map(|s| &s.1).max();
                newest.map_or("", |ts| ts.as_str()) < cutoff.as_str()
            })
            .map(|r| (r.0, r.1.clone(), r.2.clone()))
            .collect();
        stale.sort_by(|a, b| a.1.cmp(&b.1));
        let mut sweep = Sweep::start(stale.len());
        while let Some((start, end)) = sweep.batch() {
            let names: Vec<&str> = stale[start..end].iter().map(|r| r.1.as_str()).collect();
            assert!(batch_query(&names).is_ok());
            self.calls += 1;
            let Some(body) = self.bodies.pop_front() else {
                break;
            };
            let verdicts = read_verdicts(body.as_bytes(), names.len()).unwrap();
            for ((id, name, lane), verdict) in stale[start..end].iter().zip(verdicts) {
                match sweep.settle(name, verdict) {
                    Sweeping::Refresh(repo) => self.record(&repo, lane),
                    Sweeping::Retire => {
                        for row in self.repos.iter_mut().filter(|r| r.0 == *id) {
                            row.3 = "inactive".to_string();
                        }
                    }
                    Sweeping::Keep(_) => {}
                }
            }
        }
        (sweep.report(), sweep.failure())
    }
}

#[test]
fn the_queue_drains_oldest_first_and_drops_names_that_do_not_resolve() {
    let mut w = World::default();
    w.queue("b/second", "2026-07-30T02:00:00Z", "embed");
    w.queue("a/first", "2026-07-30T01:00:00Z", "embed");
    w.answers = VecDeque::from([
        Some(repo(1, "a/first", 10, "2026-01-01T00:00:00Z")),
        None,
    ]);

    let report = w.drain();

    assert_eq!(w.calls, 2);
    assert!(w.queue.is_empty());
    assert_eq!(w.repos.len(), 1);
    assert_eq!((w.repos[0].1.as_str(), w.repos[0].2.as_str()), ("a/first", "embed"));
    assert_eq!(w.snapshots[0].2, 10);
    // A per-repo GET is where subscriber counts come from.
    assert_eq!(w.snapshots[0].3, Some(5));
    assert_eq!(w.repos[0].4.as_deref(), Some("Rust"));
    assert_eq!(
        report,
        "queue: 1 repo enrolled, 1 name dropped as unresolvable or opted out, 0 still waiting"
    );
}

#[test]
fn a_drained_name_is_recorded_under_the_lane_that_asked_for_it() {
    let mut w = World::default();
    w.queue("a/badge", "2026-07-30T01:00:00Z", "embed");
    w.queue("b/typed", "2026-07-30T02:00:00Z", "manual");
    w.answers = VecDeque::from([
        Some(repo(1, "a/badge", 10, "2026-01-01T00:00:00Z")),
        Some(repo(2, "b/typed", 20, "2026-01-01T00:00:00Z")),
    ]);

    w.drain();

    // The lane is how a repo entered. Overflow means it entered a day late, not
    // that it entered through the drain.
    let lane_of = |name: &str| w.repos.iter().find(|r| r.1 == name).unwrap().2.clone();
    assert_eq!(lane_of("a/badge"), "embed");
    assert_eq!(lane_of("b/typed"), "manual");
}

#[test]
fn a_github_failure_leaves_the_rest_of_the_queue_for_a_later_day() {
    let mut w = World::default();
    w.queue("a/one", "2026-07-30T01:00:00Z", "embed");
    w.queue("b/two", "2026-07-30T02:00:00Z", "embed");

    w.drain();

    // Stopped at the first failure rather than burning the rest of the queue.
    assert_eq!(w.calls, 1);
    assert_eq!(w.queue.len(), 2);
    assert!(w.repos.is_empty());
}

#[test]
fn nothing_collects_for_a_repo_that_opted_out() {
    let mut w = World::default();
    w.track(2, "b/old-name", "scan", "opted_out");
    w.queue("b/renamed", "2026-07-30T01:00:00Z", "embed");
    w.pages = VecDeque::from([
        vec![item(1, "a/keep", 100), item(2, "b/renamed", 5_000)],
        vec![],
        vec![],
        vec![],
        vec![],
        vec![],
        vec![],
    ]);
    // What the queue drain gets when it asks about the name it parked.
    w.answers = VecDeque::from([Some(repo(2, "b/renamed", 5_000, "2026-06-01T00:00:00Z"))]);

    let recording = w.scan();
    assert_eq!((recording.appended, recording.declined), (1, 1));
    w.drain();
    let (_, failure) = w.sweep();
    assert_eq!(failure, None);

    assert_eq!(w.calls, 8);
    // The scan found it and wrote nothing; the name in the store did not move.
    assert!(w.snapshots.iter().all(|s| s.0 != 2));
    assert_eq!(w.repos[0].1, "b/old-name");
    // The queued name resolved onto the opted-out id and left the queue.
    assert!(w.queue.is_empty());
    // The repo that never opted out is collected as usual.
    assert_eq!(w.snapshots.iter().filter(|s| s.0 == 1).count(), 1);
    // Search items carry the language too, so the scan lane sets it for free.
    assert_eq!(w.repos[1].4.as_deref(), Some("Rust"));
}

#[test]
fn the_sweep_refreshes_the_stale_and_retires_the_missing() {
    let mut w = World::default();
    w.track(1, "a/stale", "scan", "active");
    w.snapshot(1, "2026-07-29T00:00:00Z", 100);
    w.track(2, "m/fresh", "scan", "active");
    w.snapshot(2, "2026-07-30T23:00:00Z", 50);
    w.track(3, "z/gone", "embed", "active");

    // Both stale repos ride one batched request; a/stale is r0 and z/gone
    // is r1 because the stale list is ordered by name.
    w.bodies = VecDeque::from([format!(
        r#"{{"data":{{"r0":{},"r1":null}},"errors":[{{"type":"NOT_FOUND","path":["r1"],"message":"gone"}}]}}"#,
        graphql_node(1, "a/renamed", 140, "2026-01-01T00:00:00Z")
    )]);

    let (report, failure) = w.sweep();

    assert_eq!(failure, None);
    assert_eq!(report, "sweep: 1 repo refreshed, 1 repo now inactive, 0 blocked, 2 due");
    // One request for the two due repos; the fresh one was not worth asking about.
    assert_eq!(w.calls, 1);
    // A rename heals onto the same id and the series just continues.
    assert_eq!((w.repos[0].1.as_str(), w.repos[0].2.as_str()), ("a/renamed", "scan"));
    assert_eq!(w.snapshots.iter().filter(|s| s.0 == 1).count(), 2);
    assert!(w
        .snapshots
        .iter()
        .any(|s| s.0 == 1 && s.1 == "2026-07-31T00:00:00Z" && s.2 == 140));
    // Gone from our vantage point: status flips, the series is kept.
    assert_eq!(w.repos[2].3, "inactive");
    assert_eq!(w.snapshots.len(), 3);
}

#[test]
fn the_sweep_chunks_past_one_batch() {
    let last = GRAPHQL_BATCH as i64 + 1;
    let mut w = World::default();
    for i in 1..=last {
        w.track(i, &format!("o{i:03}/x"), "scan", "active");
    }
    let node = |i: i64| graphql_node(i, &format!("o{i:03}/x"), 10 * i, "2026-01-01T00:00:00Z");
    let first: Vec<String> = (1..last)
        .map(|i| format!(r#""r{}":{}"#, i - 1, node(i)))
        .collect();
    w.bodies = VecDeque::from([
        format!(r#"{{"data":{{{}}}}}"#, first.join(",")),
        format!(r#"{{"data":{{"r0":{}}}}}"#, node(last)),
    ]);

    let (_, failure) = w.sweep();

    assert_eq!(failure, None);
    assert_eq!(w.calls, 2);
    assert_eq!(w.snapshots.len() as i64, last);
    // The repo that fell into the second chunk still got its reading.
    assert!(w.snapshots.iter().any(|s| s.0 == last && s.2 == 10 * last));
}

#[test]
fn a_blocked_repo_is_neither_refreshed_nor_retired() {
    let mut w = World::default();
    w.track(7, "d/dmca", "scan", "active");
    w.bodies = VecDeque::from([
        r#"{"data":{"r0":null},"errors":[{"type":"FORBIDDEN","path":["r0"],"message":"dmca"}]}"#
            .to_string(),
    ]);

    let (_, failure) = w.sweep();

    assert_eq!(failure, None);
    assert_eq!(w.repos[0].3, "active");
    assert!(w.snapshots.is_empty());
}

#[test]
fn a_repo_left_unread_fails_the_run() {
    let mut w = World::default();
    w.track(1, "a/answered", "scan", "active");
    w.track(2, "b/nulled", "embed", "active");
    w.bodies = VecDeque::from([format!(
        r#"{{"data":{{"r0":{},"r1":null}},"errors":[{{"type":"RESOURCE_LIMITS_EXCEEDED","path":["r1"],"message":"too much"}}]}}"#,
        graphql_node(1, "a/answered", 140, "2026-01-01T00:00:00Z")
    )]);

    let (_, failure) = w.sweep();

    let err = failure.unwrap();
    assert!(err.contains("1 of 2"), "{err}");
    // Failing is a signal, not a rollback: the repo that answered keeps its
    // row, and the one that did not is still active and still due.
    assert_eq!(w.snapshots.iter().filter(|s| s.0 == 1).count(), 1);
    assert_eq!(w.repos[1].3, "active");
}

#[test]
fn a_batch_the_sweep_never_reached_fails_the_run() {
    let mut w = World::default();
    w.track(1, "a/one", "scan", "active");
    w.track(2, "b/two", "scan", "active");

    let (_, failure) = w.sweep();

    let err = failure.unwrap();
    assert!(err.contains("2 of 2"), "{err}");
}

#[test]
fn a_scan_reads_every_bucket_and_follows_full_pages() {
    let now = parse_iso8601_utc(NOW).unwrap();
    let full = |from: i64| -> Vec<SearchItem> {
        (0..PAGE_SIZE as i64)
            .map(|k| item(from + k, &format!("o/r{}", from + k), 1))
            .collect()
    };
    let mut scan = Scan::start();
    let mut asked = Vec::new();
    while let Some((query, page)) = scan.request(now) {
        asked.push((query.clone(), page));
        if query.ends_with("500..700") && page <= 2 {
            scan.page(full(1_000 * page as i64));
        } else if query.ends_with("700..1100") {
            // Full to the last page: the search's own cap ends the bucket.
            scan.page(full(100_000 + 1_000 * page as i64));
        } else {
            scan.page(vec![]);
        }
    }
    assert_eq!(asked[0], ("created:>2026-02-01 stars:500..700".to_string(), 1));
    assert_eq!(asked[2].1, 3);
    assert_eq!(asked.len(), 3 + PAGES as usize + 5);
    assert_eq!(
        asked.last().unwrap(),
        &("created:>2026-02-01 stars:>100000".to_string(), 1)
    );
    assert_eq!(scan.found.len(), 12 * PAGE_SIZE);
}

#[test]
fn a_repo_that_turns_up_again_is_the_last_one_seen() {
    let mut scan = Scan::start();
    scan.page(vec![item(1, "a/old", 699), item(2, "b/b", 600)]);
    scan.page(vec![item(1, "a/new", 701), item(3, "0/c", 900)]);
    let names: Vec<String> = in_order(scan.found).into_iter().map(|i| i.full_name).collect();
    assert_eq!(names, ["0/c", "a/new", "b/b"]);
}

#[test]
fn a_sweep_counts_every_verdict_once() {
    let mut sweep = Sweep::start(3);
    assert_eq!(sweep.batch(), Some((0, 3)));
    assert_eq!(
        sweep.settle("a/b", Verdict::Blocked),
        Sweeping::Keep("sweep: a/b is blocked, kept as due".to_string())
    );
    assert_eq!(
        sweep.settle("c/d", Verdict::Failed("RESOURCE_LIMITS_EXCEEDED".to_string())),
        Sweeping::Keep("sweep: no reading for c/d (RESOURCE_LIMITS_EXCEEDED)".to_string())
    );
    assert_eq!(sweep.settle("e/f", Verdict::Gone), Sweeping::Retire);
    assert_eq!(sweep.batch(), None);
    assert_eq!(
        sweep.failure().as_deref(),
        Some("sweep left 1 of 3 due repos unread; those days cannot be backfilled")
    );
    assert_eq!(Sweep::start(0).failure(), None);
}

#[test]
fn a_run_says_what_it_saw() {
    assert_eq!(
        Recording {
            seen: 2,
            at: 2,
            appended: 1,
            declined: 1
        }
        .report(NOW),
        "2026-07-31T00:00:00Z  2 repos seen, 1 snapshot row appended, 1 opted out"
    );
    assert_eq!(DRAIN_LIMIT, 320);
    assert_eq!(
        stale_cutoff(parse_iso8601_utc(NOW).unwrap()),
        "2026-07-30T04:00:00Z"
    );
}
