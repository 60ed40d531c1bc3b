use afterglow::store::{migrated, not_tracked_error, opt_out_report, pending, status_for, MIGRATIONS};

#[test]
fn a_store_is_brought_from_where_it_is() {
    assert_eq!(pending(0).unwrap(), [1, 2, 3, 4]);
    assert_eq!(pending(1).unwrap(), [2, 3, 4]);
    // Reopening an already-migrated store is a no-op, not a re-apply.
    assert!(pending(MIGRATIONS as i64).unwrap().is_empty());
}

#[test]
fn a_store_from_the_future_is_refused() {
    assert_eq!(
        pending(5).unwrap_err(),
        "store is at schema version 5, this binary knows 4"
    );
    assert_eq!(
        pending(-1).unwrap_err(),
        "store is at schema version -1, this binary knows 4"
    );
}

#[test]
fn the_operator_is_told_what_changed() {
    assert_eq!(status_for(false), "opted_out");
    assert_eq!(status_for(true), "active");
    assert_eq!(
        opt_out_report("Owner/Repo", 1, false),
        "Owner/Repo (1) opted out; its badge reads not tracked and it leaves the rankings"
    );
    assert_eq!(
        opt_out_report("Owner/Repo", 1, true),
        "Owner/Repo (1) is tracked again; its badge and its rankings row are back"
    );
    assert_eq!(
        not_tracked_error("who/knows"),
        "who/knows is not tracked, so there is nothing to opt out"
    );
}

#[test]
fn a_migration_counts_only_where_nothing_dangles() {
    assert_eq!(migrated(3, false), Ok(3));
    assert_eq!(
        migrated(3, true).unwrap_err(),
        "migration 3 left dangling references"
    );
    // A store that stopped on the way goes on with what it had not had yet.
    let all = pending(0).unwrap();
    for done in 0..=all.len() {
        assert_eq!(pending(done as i64).unwrap(), all[done..]);
    }
}
