use afterglow::github::{
    backoff, batch_query, exhausted, graphql_node, graphql_url, next_attempt, read_verdicts, refusal, repo_from_node,
    repo_json, repo_url, search_params, search_url, step, verdicts, waiting, BatchError, GraphNode, NodeField, Probe,
    RateHeaders, Step, Verdict, MAX_ATTEMPTS, MAX_BACKOFF,
};

const FORBIDDEN: u16 = 403;
const TOO_MANY_REQUESTS: u16 = 429;
const BAD_GATEWAY: u16 = 502;
const UNAUTHORIZED: u16 = 401;
const UNPROCESSABLE_ENTITY: u16 = 422;

fn headers(pairs: &[(&str, &str)]) -> RateHeaders {
    let get = |name: &str| {
        pairs
            .iter()
            .find(|(k, _)| *k == name)
            .map(|(_, v)| v.to_string())
    };
    RateHeaders {
        retry_after: get("retry-after"),
        remaining: get("x-ratelimit-remaining"),
        reset: get("x-ratelimit-reset"),
    }
}

#[test]
fn retry_after_wins() {
    let h = headers(&[("retry-after", "37")]);
    assert_eq!(backoff(FORBIDDEN, &h, 0, 1000), Some(37));
}

#[test]
fn primary_limit_waits_for_the_reset() {
    let h = headers(&[
        ("x-ratelimit-remaining", "0"),
        ("x-ratelimit-reset", "1060"),
    ]);
    assert_eq!(backoff(FORBIDDEN, &h, 0, 1000), Some(61));
}

#[test]
fn secondary_limit_backs_off_exponentially() {
    let h = headers(&[("x-ratelimit-remaining", "42")]);
    assert_eq!(backoff(FORBIDDEN, &h, 3, 1000), Some(8));
    assert_eq!(backoff(TOO_MANY_REQUESTS, &headers(&[]), 0, 1000), Some(1));
}

#[test]
fn server_errors_retry_and_client_errors_do_not() {
    assert!(backoff(BAD_GATEWAY, &headers(&[]), 1, 0).is_some());
    assert!(backoff(UNAUTHORIZED, &headers(&[]), 1, 0).is_none());
    assert!(backoff(UNPROCESSABLE_ENTITY, &headers(&[]), 1, 0).is_none());
}

#[test]
fn waits_are_clamped() {
    let h = headers(&[("retry-after", "99999")]);
    assert_eq!(backoff(FORBIDDEN, &h, 0, 0), Some(MAX_BACKOFF));
    let h = headers(&[("x-ratelimit-remaining", "0"), ("x-ratelimit-reset", "5")]);
    assert_eq!(backoff(FORBIDDEN, &h, 0, 1000), Some(1));
    let h = headers(&[("retry-after", "-9223372036854775808")]);
    assert_eq!(backoff(FORBIDDEN, &h, 0, 0), Some(1));
}

#[test]
fn doubling_stops_at_the_ninth_attempt() {
    let waits: Vec<Option<u64>> = (0..12)
        .map(|attempt| backoff(BAD_GATEWAY, &headers(&[]), attempt, 0))
        .collect();
    let expected = [1, 2, 4, 8, 16, 32, 64, 128, 256, 512, 512, 512];
    assert_eq!(waits, expected.map(Some));
}

#[test]
fn unreadable_headers_are_no_headers() {
    let h = headers(&[("retry-after", "Wed, 21 Oct 2026 07:28:00 GMT")]);
    assert_eq!(backoff(FORBIDDEN, &h, 2, 0), Some(4));
    let h = headers(&[("retry-after", " 12 ")]);
    assert_eq!(backoff(FORBIDDEN, &h, 2, 0), Some(12));
    // No reset to wait for: the shortest wait there is.
    let h = headers(&[("x-ratelimit-remaining", "0")]);
    assert_eq!(backoff(FORBIDDEN, &h, 5, 1000), Some(1));
    // The primary limit means nothing on a success or on a server error.
    let h = headers(&[("x-ratelimit-remaining", "0"), ("x-ratelimit-reset", "1060")]);
    assert_eq!(backoff(BAD_GATEWAY, &h, 1, 1000), Some(2));
    assert_eq!(backoff(UNAUTHORIZED, &h, 1, 1000), None);
}

#[test]
fn an_answer_is_delivered_missing_waited_for_or_refused() {
    let none = headers(&[]);
    assert_eq!(step(200, &none, 0, 0), Step::Deliver);
    assert_eq!(step(299, &none, 0, 0), Step::Deliver);
    assert_eq!(step(404, &none, 0, 0), Step::Missing);
    assert_eq!(step(503, &none, 2, 0), Step::Wait { secs: 4 });
    assert_eq!(step(301, &none, 0, 0), Step::Refuse);
    assert_eq!(step(401, &none, 0, 0), Step::Refuse);
    assert_eq!(next_attempt(0), Some(1));
    assert_eq!(next_attempt(MAX_ATTEMPTS - 2), Some(MAX_ATTEMPTS - 1));
    assert_eq!(next_attempt(MAX_ATTEMPTS - 1), None);
    assert_eq!(next_attempt(u32::MAX), None);
}

#[test]
fn failures_say_what_happened() {
    assert_eq!(
        refusal("GET x", "401 Unauthorized", "  nope \n"),
        "GET x -> 401 Unauthorized: nope"
    );
    let long = "é".repeat(301);
    assert_eq!(
        refusal("GET x", "400 Bad Request", &long),
        format!("GET x -> 400 Bad Request: {}", "é".repeat(300))
    );
    assert_eq!(exhausted("GET x"), "GET x: still rate-limited after 6 attempts");
    assert_eq!(
        waiting("403 Forbidden", "GET x", 0),
        "github: 403 Forbidden on GET x, waiting 1s"
    );
    assert_eq!(
        waiting("403 Forbidden", "GET x", 37),
        "github: 403 Forbidden on GET x, waiting 37s"
    );
}

#[test]
fn requests_go_where_github_listens() {
    assert_eq!(repo_url("https://x", "a/b"), "https://x/repos/a/b");
    assert_eq!(search_url("https://x"), "https://x/search/repositories");
    assert_eq!(graphql_url("https://x"), "https://x/graphql");
    assert_eq!(
        search_params("stars:>1", 10),
        [
            ("q", "stars:>1".to_string()),
            ("sort", "stars".to_string()),
            ("order", "asc".to_string()),
            ("per_page", "100".to_string()),
            ("page", "10".to_string()),
        ]
    );
}

#[test]
fn a_batch_asks_for_each_name_under_its_own_alias() {
    assert_eq!(
        batch_query(&vec!["a/b", "c.d/e_f"]).unwrap(),
        "query {\n\
         r0: repository(owner: \"a\", name: \"b\") { databaseId nameWithOwner createdAt pushedAt stargazerCount forkCount issues(states: OPEN) { totalCount } pullRequests(states: OPEN) { totalCount } watchers { totalCount } primaryLanguage { name } }\n\
         r1: repository(owner: \"c.d\", name: \"e_f\") { databaseId nameWithOwner createdAt pushedAt stargazerCount forkCount issues(states: OPEN) { totalCount } pullRequests(states: OPEN) { totalCount } watchers { totalCount } primaryLanguage { name } }\n\
         }"
    );
    assert_eq!(batch_query(&vec![]).unwrap(), "query {\n}");
    assert_eq!(batch_query(&vec!["a/b", "bad", "worse"]), Err("bad".to_string()));
}

#[test]
fn a_batch_probe_sorts_found_gone_and_blocked() {
    let body = format!(
        r#"{{"data":{{"r0":{},"r1":null,"r2":null}},"errors":[{{"type":"NOT_FOUND","path":["r1"],"message":"gone"}},{{"type":"FORBIDDEN","path":["r2"],"message":"dmca"}}]}}"#,
        graphql_node(9, "a/renamed", 12, "2026-01-02T03:04:05Z")
    );
    assert!(batch_query(&vec!["a/b", "c/d", "e/f"]).is_ok());
    let probes: Vec<Probe> = read_verdicts(body.as_bytes(), 3)
        .unwrap()
        .into_iter()
        .map(Verdict::probe)
        .collect();

    let Probe::Found(repo) = &probes[0] else {
        panic!("expected Found, got {:?}", probes[0]);
    };
    assert_eq!((repo.id, repo.stargazers_count), (9, 12));
    assert_eq!(repo.full_name, "a/renamed");
    // REST's open_issues_count means issues plus PRs; the reshape keeps that.
    assert_eq!(repo.open_issues_count, Some(4));
    assert_eq!(repo.subscribers_count, Some(5));
    assert_eq!(repo.pushed_at.as_deref(), Some("2026-01-02T03:04:05Z"));
    assert_eq!(repo.language.as_deref(), Some("Rust"));
    assert!(matches!(probes[1], Probe::Gone));
    // Blocked is not gone: no verdict, never a retirement.
    assert!(matches!(probes[2], Probe::Undecided));
}

#[test]
fn a_refused_query_and_an_illegal_name_are_errors_not_verdicts() {
    let refused = r#"{"data":null,"errors":[{"type":"RATE_LIMITED","message":"slow down"}]}"#;

    // An off-charset name is refused before any request is built.
    assert!(batch_query(&vec![r#"evil"} x: viewer {login"#]).is_err());

    let err = read_verdicts(refused.as_bytes(), 1).unwrap_err();
    let message = err.message("https://x/graphql");
    assert!(message.contains("slow down"), "{message}");
    assert_eq!(message, "POST https://x/graphql: no data (slow down)");
}

#[test]
fn an_answer_without_data_gives_the_first_reason_there_is() {
    for (body, why) in [
        (r#"{"data":null}"#, "no error given"),
        (r#"{}"#, "no error given"),
        (r#"[1]"#, "no error given"),
        (r#"{"errors":[]}"#, "no error given"),
        (r#"{"errors":[{"message":7},{"message":"second"}]}"#, "no error given"),
        (r#"{"errors":{"0":{"message":"not a list"}}}"#, "no error given"),
        (r#"{"errors":[{"message":"first"},{"message":"second"}]}"#, "first"),
    ] {
        assert_eq!(
            read_verdicts(body.as_bytes(), 1),
            Err(BatchError::NoData(why.to_string())),
            "{body}"
        );
    }
    assert_eq!(read_verdicts(b"{", 1), Err(BatchError::Undecodable));
    assert_eq!(BatchError::Undecodable.message("u"), "decoding u");
}

#[test]
fn a_failure_keeps_its_reason_and_the_last_error_counts() {
    let body = r#"{"data":{"r0":null,"r1":null,"r2":null,"r3":null},"errors":[
        {"type":"NOT_FOUND","path":["r0"]},
        {"type":"RESOURCE_LIMITS_EXCEEDED","path":["r0"]},
        {"type":7,"path":["r0"]},
        {"type":"NOT_FOUND","path":{"0":"r1"}},
        {"type":"NOT_FOUND","path":[2]},
        {"type":"NOT_FOUND","path":["data","r3"]}
    ]}"#;
    assert_eq!(
        read_verdicts(body.as_bytes(), 4).unwrap(),
        [
            Verdict::Failed("RESOURCE_LIMITS_EXCEEDED".to_string()),
            Verdict::Failed("no error given".to_string()),
            Verdict::Failed("no error given".to_string()),
            Verdict::Failed("no error given".to_string()),
        ]
    );
}

#[test]
fn a_node_without_a_field_it_needs_is_an_error() {
    let full = graphql_node(9, "a/b", 12, "2026-01-02T03:04:05Z");
    for (field, error) in [
        (r#""databaseId":9,"#, NodeField::DatabaseId),
        (r#""nameWithOwner":"a/b","#, NodeField::NameWithOwner),
        (r#""createdAt":"2026-01-02T03:04:05Z","#, NodeField::CreatedAt),
        (r#""stargazerCount":12,"#, NodeField::StargazerCount),
    ] {
        let node = full.replace(field, "");
        assert_ne!(node, full);
        let body = format!(r#"{{"data":{{"r0":{full},"r1":{node}}}}}"#);
        let err = read_verdicts(body.as_bytes(), 2).unwrap_err();
        assert_eq!(err, BatchError::BadNode { slot: 1, field: error });
        assert_eq!(
            err.message("u"),
            format!("graphql node has no {}", error.name())
        );
    }
    // A star count that is no integer is none.
    let node = full.replace(r#""stargazerCount":12"#, r#""stargazerCount":12.5"#);
    let body = format!(r#"{{"data":{{"r0":{node}}}}}"#);
    assert_eq!(
        read_verdicts(body.as_bytes(), 1),
        Err(BatchError::BadNode {
            slot: 0,
            field: NodeField::StargazerCount
        })
    );
    let node = full.replace(
        r#""issues":{"totalCount":1}"#,
        r#""issues":{"totalCount":9223372036854775807}"#,
    );
    let body = format!(r#"{{"data":{{"r0":{node}}}}}"#);
    assert_eq!(
        read_verdicts(body.as_bytes(), 1),
        Err(BatchError::TooManyIssues { slot: 0 })
    );
    // A field that is missing is what is wrong with a node, whatever it counts.
    let node = node.replace(r#""createdAt":"2026-01-02T03:04:05Z","#, "");
    let body = format!(r#"{{"data":{{"r0":{node}}}}}"#);
    assert_eq!(
        read_verdicts(body.as_bytes(), 1),
        Err(BatchError::BadNode {
            slot: 0,
            field: NodeField::CreatedAt
        })
    );
    assert_eq!(
        BatchError::TooManyIssues { slot: 0 }.message("u"),
        "graphql node counts too many open issues"
    );
}

#[test]
fn a_node_may_lack_what_a_repo_may_lack() {
    let node = GraphNode {
        database_id: Some(1),
        name_with_owner: Some("a/b".to_string()),
        created_at: Some("2026-01-01T00:00:00Z".to_string()),
        pushed_at: None,
        stargazer_count: Some(5),
        fork_count: None,
        issues: Some(3),
        pull_requests: None,
        watchers: None,
        language: None,
    };
    let repo = repo_from_node(node).unwrap();
    assert_eq!((repo.id, repo.stargazers_count), (1, 5));
    assert_eq!(repo.open_issues_count, None);
    assert_eq!(repo.subscribers_count, None);
    assert_eq!(repo.language, None);
}

#[test]
fn verdicts_are_read_off_a_document_in_order() {
    let body = format!(
        r#"{{"data":{{"r1":{},"r0":{}}}}}"#,
        graphql_node(2, "c/d", 20, "2026-01-01T00:00:00Z"),
        graphql_node(1, "a/b", 10, "2026-01-01T00:00:00Z"),
    );
    let doc: serde_json::Value = serde_json::from_str(&body).unwrap();
    let stars: Vec<i64> = verdicts(&doc, 2)
        .unwrap()
        .into_iter()
        .map(|v| match v {
            Verdict::Found(repo) => repo.stargazers_count,
            other => panic!("{other:?}"),
        })
        .collect();
    assert_eq!(stars, [10, 20]);
    assert_eq!(verdicts(&doc, 0).unwrap(), []);
}

#[test]
fn both_transports_describe_the_same_repo() {
    let rest: serde_json::Value =
        serde_json::from_str(&repo_json(9, "a/b", 12, "2026-01-02T03:04:05Z")).unwrap();
    assert_eq!(rest["id"], 9);
    assert_eq!(rest["full_name"], "a/b");
    assert_eq!(rest["stargazers_count"], 12);
    assert_eq!(rest["open_issues_count"], 4);
    let graph: serde_json::Value =
        serde_json::from_str(&graphql_node(9, "a/b", 12, "2026-01-02T03:04:05Z")).unwrap();
    assert_eq!(graph["databaseId"], 9);
    assert_eq!(graph["nameWithOwner"], "a/b");
    assert_eq!(graph["watchers"]["totalCount"], 5);
}
