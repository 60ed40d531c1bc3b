use afterglow::import::{
    admitted, append_ids, linked_id, parse_capture_ratios, parse_prehistory_line, parse_snapshot_line, read_rows, report_names,
    report_ratios, report_rows, resolving_progress, tally, upserts, Column, LineError, NameTally, Prehistory,
    PrehistoryRow, Resolution, SnapshotRow, Upsert,
};

fn row(line: &str) -> SnapshotRow {
    parse_snapshot_line(line).unwrap().unwrap()
}

#[test]
fn parses_the_current_seven_column_row() {
    let r = row(
        "2026-07-30T17:04:20Z\tzhongerxin/Cowart\t5143\t2026-06-18T16:08:30Z\t395\t13\t2026-07-17T05:52:22Z",
    );
    assert_eq!(
        r,
        SnapshotRow {
            ts: "2026-07-30T17:04:20Z".into(),
            full_name: "zhongerxin/Cowart".into(),
            stars: 5143,
            created_at: Some("2026-06-18T16:08:30Z".into()),
            forks: Some(395),
            open_issues: Some(13),
            pushed_at: Some("2026-07-17T05:52:22Z".into()),
        }
    );
}

#[test]
fn parses_the_legacy_four_column_row() {
    let r = row("2026-07-30T15:25:13Z\ta/b\t12\t2026-01-02T03:04:05Z");
    assert_eq!(r.stars, 12);
    assert_eq!(r.created_at.as_deref(), Some("2026-01-02T03:04:05Z"));
    assert_eq!((r.forks, r.open_issues, r.pushed_at), (None, None, None));
}

#[test]
fn empty_trailing_fields_become_null() {
    let r = row("2026-07-30T15:25:13Z\ta/b\t12\t2026-01-02T03:04:05Z\t0\t0\t");
    assert_eq!(r.forks, Some(0));
    assert_eq!(r.open_issues, Some(0));
    assert_eq!(r.pushed_at, None);
}

#[test]
fn rejects_other_widths_and_junk() {
    assert!(parse_snapshot_line("a\tb\tc").is_err());
    assert!(parse_snapshot_line("a\tb\tc\td\te").is_err());
    assert!(
        parse_snapshot_line("2026-07-30T15:25:13Z\ta/b\tmany\t2026-01-02T03:04:05Z").is_err()
    );
    assert!(parse_snapshot_line("\n").unwrap().is_none());
    assert!(parse_snapshot_line("").unwrap().is_none());
}

#[test]
fn parses_prehistory_rows() {
    assert_eq!(
        parse_prehistory_line("0xGF/boneyard\t2026-04-01\t1046\n")
            .unwrap()
            .unwrap(),
        PrehistoryRow {
            full_name: "0xGF/boneyard",
            month: "2026-04",
            gross_watch_events: 1046,
        }
    );
    // The floor harvest carries one degenerate name; it is still a key.
    assert_eq!(
        parse_prehistory_line("/\t2011-02-01\t1216")
            .unwrap()
            .unwrap()
            .full_name,
        "/"
    );
    assert_eq!(
        parse_prehistory_line("a/b\t2011-02\t1")
            .unwrap()
            .unwrap()
            .month,
        "2011-02"
    );
    assert!(parse_prehistory_line("").unwrap().is_none());
    assert!(parse_prehistory_line("a/b\t2011-02-01").is_err());
    assert!(parse_prehistory_line("a/b\tFeb 2011\t1").is_err());
    assert!(parse_prehistory_line("a/b\t2011-0201\t1").is_err());
    assert!(parse_prehistory_line("a/b\t2011-02-01\tlots").is_err());
}

#[test]
fn reads_capture_ratios_from_the_manifest_table() {
    let md = "\
| file | rows | bytes | columns |
|---|---|---|---|
| `prehistory-tracked-monthly.tsv` | 1,688 | 63,756 | repo_name, month, watch_events |

| repo | harvested sum | 005 reference | match |
|---|---|---|---|
| google/deepdream | 14,912 | 14,912 | yes |

| month | WatchEvents | capture vs baseline |
|---|---|---|
| 2025-01 | 6,206,143 | 101% |
| 2026-06 | 310,744 | 5% |
| 2026-07 (to the 30th) | 78,796 | ~1% |
";
    let ratios: Vec<(String, f64)> = parse_capture_ratios(md)
        .unwrap()
        .into_iter()
        .map(|(month, percent)| (month, percent.parse::<f64>().unwrap() / 100.0))
        .collect();
    assert_eq!(
        ratios,
        vec![
            ("2025-01".to_string(), 1.01),
            ("2026-06".to_string(), 0.05),
            ("2026-07".to_string(), 0.01),
        ]
    );
    assert!(parse_capture_ratios("nothing here").is_none());
}

#[test]
fn a_percentage_loses_its_marks_and_nothing_else() {
    let md = "  | 2025-02 | 1 | ~ 1,234.5 % |\n|2025-03|x|many%|\n| 2025-04 | 1 |\n| 2025-05 | 1 | 5 |\n| May 2025 | 1 | 5% |\n";
    assert_eq!(
        parse_capture_ratios(md).unwrap(),
        [
            ("2025-02".to_string(), "1234.5".to_string()),
            ("2025-03".to_string(), "many".to_string()),
        ]
    );
}

#[test]
fn a_line_says_what_is_wrong_with_it() {
    for (line, error) in [
        ("a\tb\tc", LineError::Width(3)),
        ("x", LineError::Width(1)),
        ("\ta/b\t1\t", LineError::Empty(Column::Ts)),
        ("t\t \t1\t", LineError::Empty(Column::Repo)),
        ("t\ta/b\t\t", LineError::Empty(Column::Stars)),
        ("t\ta/b\tx\t", LineError::NotANumber(Column::Stars)),
        ("t\ta/b\t1\t\tx\ty\t", LineError::NotANumber(Column::Forks)),
        ("t\ta/b\t1\t\t1\ty\t", LineError::NotANumber(Column::OpenIssues)),
    ] {
        assert_eq!(parse_snapshot_line(line), Err(error), "{line:?}");
    }
    for (line, error) in [
        ("a/b\t2011-02", LineError::Width(2)),
        (" \t2011-02\t1", LineError::Empty(Column::RepoName)),
        ("a/b\t2011-2\t1", LineError::BadMonth("2011-2".to_string())),
        ("a/b\t2011-02\t", LineError::NotANumber(Column::WatchEvents)),
    ] {
        assert_eq!(parse_prehistory_line(line), Err(error), "{line:?}");
    }
    assert_eq!(Column::OpenIssues.name(), "open_issues");
}

#[test]
fn a_file_is_read_whole_or_refused_at_a_line() {
    let rows = read_rows("t1\ta/b\t1\t\n\nt2\tc/d\t2\t\r\n").unwrap();
    assert_eq!(rows.len(), 2);
    assert_eq!(rows[1].full_name, "c/d");
    assert_eq!(
        read_rows("t1\ta/b\t1\t\n\nt2\tc/d\tx\t\nworse\n"),
        Err((3, LineError::NotANumber(Column::Stars)))
    );
    assert_eq!(read_rows("").unwrap(), []);
}

fn file() -> Vec<SnapshotRow> {
    read_rows(
        "2026-07-31T00:00:00Z\tz/gone\t9\t\n\
         2026-07-31T00:00:00Z\tm/new\t5\t2026-02-02T00:00:00Z\n\
         2026-07-30T00:00:00Z\ta/known\t1\t\n\
         2026-07-29T00:00:00Z\tm/new\t4\t2026-03-03T00:00:00Z\n\
         2026-07-31T00:00:00Z\ta/known\t2\t2026-01-01T00:00:00Z\n\
         2026-07-28T00:00:00Z\tz/gone\t8\t\n",
    )
    .unwrap()
}

fn resolved() -> Vec<Resolution> {
    vec![
        Resolution::Known(1),
        Resolution::Fetched {
            id: 2,
            full_name: "m/renamed".to_string(),
            created_at: "2020-01-01T00:00:00Z".to_string(),
        },
        Resolution::Missing,
    ]
}

#[test]
fn a_file_is_tallied_by_name() {
    assert_eq!(
        tally(&file()),
        [
            NameTally {
                name: "a/known".to_string(),
                first_seen: "2026-07-30T00:00:00Z".to_string(),
                created: Some("2026-01-01T00:00:00Z".to_string()),
                rows: 2,
            },
            NameTally {
                name: "m/new".to_string(),
                first_seen: "2026-07-29T00:00:00Z".to_string(),
                created: Some("2026-02-02T00:00:00Z".to_string()),
                rows: 2,
            },
            NameTally {
                name: "z/gone".to_string(),
                first_seen: "2026-07-28T00:00:00Z".to_string(),
                created: None,
                rows: 2,
            },
        ]
    );
    assert_eq!(tally(&Vec::new()), []);
}

#[test]
fn a_resolved_name_gets_a_row_and_an_invisible_one_gets_none() {
    let names = tally(&file());
    assert_eq!(
        upserts(&names, &resolved()),
        [
            Upsert {
                id: 1,
                full_name: "a/known".to_string(),
                enrolled_at: "2026-07-30T00:00:00Z".to_string(),
                created_at: Some("2026-01-01T00:00:00Z".to_string()),
            },
            Upsert {
                id: 2,
                full_name: "m/renamed".to_string(),
                enrolled_at: "2026-07-29T00:00:00Z".to_string(),
                created_at: Some("2020-01-01T00:00:00Z".to_string()),
            },
        ]
    );
    // The readings that are skipped are exactly those of the repo that is gone.
    assert_eq!(
        append_ids(&file(), &names, &resolved()),
        [None, Some(2), Some(1), Some(2), Some(1), None]
    );
}

#[test]
fn an_import_reports_what_it_did() {
    let rows = file();
    let names = tally(&rows);
    assert_eq!(
        report_names(rows.len(), &names, &resolved()),
        [
            "6 data rows, 3 distinct repos: 1 already in the store, 1 resolved via the API",
            "1 repo no longer visible to the API, 2 rows skipped:",
            "  z/gone (2 rows)",
        ]
    );
    assert_eq!(
        report_names(
            rows.len(),
            &names,
            &vec![Resolution::Known(1), Resolution::Known(2), Resolution::Known(3)]
        ),
        ["6 data rows, 3 distinct repos: 3 already in the store, 0 resolved via the API"]
    );
    assert_eq!(
        report_rows(&append_ids(&rows, &names, &resolved()), 1),
        "1 snapshot row appended, 3 already present, 2 skipped"
    );
    assert_eq!(resolving_progress(50, 120).as_deref(), Some("  50/120"));
    assert_eq!(resolving_progress(51, 120), None);
    assert_eq!(
        report_ratios(1, "data/prehistory-MANIFEST.md"),
        "1 capture ratio from data/prehistory-MANIFEST.md"
    );
}

#[test]
fn a_file_of_monthly_counts_is_taken_in_line_by_line() {
    let mut file = Prehistory::start();
    let first = file.line("a/b\t2011-02-01\t7\n").unwrap().unwrap();
    assert_eq!((first.full_name, first.month, first.gross_watch_events), ("a/b", "2011-02", 7));
    file.wrote(true);
    assert_eq!(file.line("\r\n"), Ok(None));
    assert!(file.line("a/b\t2011-03-01\t7").unwrap().is_some());
    file.wrote(false);
    assert_eq!(
        file.line("a/b\t2011-03-01"),
        Err((4, LineError::Width(2)))
    );
    assert_eq!((file.lines, file.read, file.appended), (4, 2, 1));
    assert_eq!(file.report(), "2 data rows, 1 appended, 1 already present");
    let at = |read: usize| Prehistory {
        lines: read,
        read,
        appended: 0,
    };
    assert_eq!(at(1_000_000).progress(false).as_deref(), Some("  1000000 rows"));
    assert_eq!(at(1_049_999).progress(false).as_deref(), Some("  1049999 rows"));
    assert_eq!(at(1_050_000).progress(false), None);
    assert_eq!(at(1_000_000).progress(true), None);
    assert_eq!(at(0).progress(false), None);
}

#[test]
fn a_name_is_admitted_by_the_lookup_of_its_id() {
    let fetched = || Resolution::Fetched {
        id: 2,
        full_name: "m/renamed".to_string(),
        created_at: "2020-01-01T00:00:00Z".to_string(),
    };
    assert_eq!(admitted(Resolution::Known(1), Some(false)), Resolution::Known(1));
    assert_eq!(admitted(fetched(), Some(false)), fetched());
    assert_eq!(admitted(Resolution::Known(1), Some(true)), Resolution::OptedOut);
    assert_eq!(admitted(fetched(), Some(true)), Resolution::OptedOut);
    // A lookup that failed counts as an opt-out.
    assert_eq!(admitted(fetched(), None), Resolution::OptedOut);
    assert_eq!(admitted(Resolution::Missing, None), Resolution::Missing);
    assert_eq!(Resolution::OptedOut.id(), None);
}

#[test]
fn an_import_collects_nothing_for_an_opted_out_repo() {
    let rows = file();
    let names = tally(&rows);
    let found = vec![
        admitted(Resolution::Known(1), Some(true)),
        admitted(
            Resolution::Fetched {
                id: 2,
                full_name: "m/renamed".to_string(),
                created_at: "2020-01-01T00:00:00Z".to_string(),
            },
            Some(false),
        ),
        Resolution::Missing,
    ];
    let written = upserts(&names, &found);
    assert_eq!(written.len(), 1);
    assert_eq!(written[0].id, 2);
    assert_eq!(
        append_ids(&rows, &names, &found),
        [None, Some(2), None, Some(2), None, None]
    );
    // The operator reads of the repo that is gone, and nothing of the one that opted out.
    assert_eq!(
        report_names(rows.len(), &names, &found),
        [
            "6 data rows, 3 distinct repos: 0 already in the store, 1 resolved via the API",
            "1 repo no longer visible to the API, 2 rows skipped:",
            "  z/gone (2 rows)",
        ]
    );
    assert_eq!(
        report_rows(&append_ids(&rows, &names, &found), 2),
        "2 snapshot rows appended, 0 already present, 4 skipped"
    );
}

#[test]
fn a_monthly_count_is_linked_to_the_tracked_repo_of_its_name() {
    let repos = vec![
        (7, "a/b".to_string()),
        (3, "a/b".to_string()),
        (1, "A/b".to_string()),
        (2, "c/d".to_string()),
    ];
    assert_eq!(linked_id(&repos, "a/b"), Some(3));
    assert_eq!(linked_id(&repos, "c/d"), Some(2));
    assert_eq!(linked_id(&repos, "/"), None);
    assert_eq!(linked_id(&Vec::new(), "a/b"), None);
}
