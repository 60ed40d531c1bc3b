//! What is asked of GitHub, how long to wait when it says no, and what its answers mean.

use vstd::prelude::*;

#[allow(unused_imports)]
use crate::names::{query_parts, queryable};
#[allow(unused_imports)]
use crate::text::{
    after, before, decimal, integer, integer_value, opt_text, parse_i64, push_decimal, push_integer, same,
    lemma_run, run, texts, trim_space, trimmed,
};
#[allow(unused_imports)]
use crate::markup::{holds, lemma_holds_before, lemma_holds_behind};

verus! {

pub const API: &'static str = "https://api.github.com";

pub const USER_AGENT: &'static str = "afterglow";

/// How often one request is tried before it counts as refused.
pub const MAX_ATTEMPTS: u32 = 6;

/// The longest wait between two attempts, in seconds.
pub const MAX_BACKOFF: u64 = 900;

/// Aliased repos per GraphQL query: one rate-limit point, and under GitHub's per-query
/// resource limit, past which the last nodes of an answer come back nulled.
pub const GRAPHQL_BATCH: usize = 25;

// ---------------------------------------------------------------- repos

/// A repo as GitHub describes it.
///
/// `stargazers_count` is not optional on purpose: an answer without a star count is an error,
/// never a reading that claims zero stars.
#[derive(Debug, Clone, PartialEq, Eq)]
pub struct Repo {
    pub id: i64,
    pub full_name: String,
    pub created_at: String,
    pub stargazers_count: i64,
    pub forks_count: Option<i64>,
    pub open_issues_count: Option<i64>,
    pub subscribers_count: Option<i64>,
    pub pushed_at: Option<String>,
    pub language: Option<String>,
}

/// What a repo says, as texts and numbers.
pub struct RepoView {
    pub id: int,
    pub full_name: Seq<char>,
    pub created_at: Seq<char>,
    pub stargazers_count: int,
    pub forks_count: Option<int>,
    pub open_issues_count: Option<int>,
    pub subscribers_count: Option<int>,
    pub pushed_at: Option<Seq<char>>,
    pub language: Option<Seq<char>>,
}

/// An optional count as an integer.
pub open spec fn opt_count(n: Option<i64>) -> Option<int> {
    match n {
        Some(k) => Some(k as int),
        None => None,
    }
}

impl View for Repo {
    type V = RepoView;

    open spec fn view(&self) -> RepoView {
        RepoView {
            id: self.id as int,
            full_name: self.full_name@,
            created_at: self.created_at@,
            stargazers_count: self.stargazers_count as int,
            forks_count: opt_count(self.forks_count),
            open_issues_count: opt_count(self.open_issues_count),
            subscribers_count: opt_count(self.subscribers_count),
            pushed_at: opt_text(self.pushed_at),
            language: opt_text(self.language),
        }
    }
}

/// One repo out of a search.
#[derive(Debug, Clone, PartialEq, Eq)]
pub struct SearchItem {
    pub id: i64,
    pub full_name: String,
    pub stargazers_count: i64,
    pub created_at: String,
    pub forks_count: i64,
    pub open_issues_count: i64,
    pub pushed_at: Option<String>,
    pub language: Option<String>,
}

/// One repo's verdict out of a batched probe. `Gone` is a definite NOT_FOUND and nothing else:
/// any other per-repo error (a DMCA block, a transient resolver failure) stays `Undecided`,
/// because retiring a series needs a definite answer.
#[derive(Debug, Clone, PartialEq, Eq)]
pub enum Probe {
    Found(Repo),
    Gone,
    Undecided,
}

/// What an answer says of one repo, with the reason where it says nothing. `Blocked` is a
/// standing condition of the repo; `Failed` is a reading that was lost.
#[derive(Debug, Clone, PartialEq, Eq)]
pub enum Verdict {
    Found(Repo),
    Gone,
    Blocked,
    Failed(String),
}

/// What a verdict says.
pub enum VerdictView {
    Found(RepoView),
    Gone,
    Blocked,
    Failed(Seq<char>),
}

impl View for Verdict {
    type V = VerdictView;

    open spec fn view(&self) -> VerdictView {
        match *self {
            Verdict::Found(repo) => VerdictView::Found(repo@),
            Verdict::Gone => VerdictView::Gone,
            Verdict::Blocked => VerdictView::Blocked,
            Verdict::Failed(why) => VerdictView::Failed(why@),
        }
    }
}

/// Every verdict of a list.
pub open spec fn verdict_views(v: Seq<Verdict>) -> Seq<VerdictView> {
    v.map_values(|x: Verdict| x@)
}

impl Verdict {
    /// What the verdict decides: neither a block nor a failure is a definite answer.
    pub fn probe(self) -> (r: Probe)
        ensures
            match self {
                Verdict::Found(repo) => r == Probe::Found(repo),
                Verdict::Gone => r == Probe::Gone,
                Verdict::Blocked => r == Probe::Undecided,
                Verdict::Failed(_) => r == Probe::Undecided,
            },
    {
        match self {
            Verdict::Found(repo) => Probe::Found(repo),
            Verdict::Gone => Probe::Gone,
            Verdict::Blocked => Probe::Undecided,
            Verdict::Failed(_) => Probe::Undecided,
        }
    }
}

// ---------------------------------------------------------------- requests

/// Where a repo is asked for.
pub fn repo_url(base: &str, full_name: &str) -> (r: String)
    ensures
        r@ == base@ + "/repos/"@ + full_name@,
{
    let mut out = base.to_owned();
    out.append("/repos/");
    out.append(full_name);
    out
}

/// Where a search is asked for.
pub fn search_url(base: &str) -> (r: String)
    ensures
        r@ == base@ + "/search/repositories"@,
{
    let mut out = base.to_owned();
    out.append("/search/repositories");
    out
}

/// Where a batch is asked for.
pub fn graphql_url(base: &str) -> (r: String)
    ensures
        r@ == base@ + "/graphql"@,
{
    let mut out = base.to_owned();
    out.append("/graphql");
    out
}

/// The parameters of one page of a search, as names and values. Ascending, so a bucket past
/// the search's 1000-result cap sheds its top (repos about to rise into the next bucket's
/// fully-scanned bottom) instead of its floor, where a riser could sit unseen for weeks.
pub fn search_params(query: &str, page: u32) -> (r: Vec<(&'static str, String)>)
    ensures
        r@.len() == 5,
        r@[0].0@ == "q"@ && r@[0].1@ == query@,
        r@[1].0@ == "sort"@ && r@[1].1@ == "stars"@,
        r@[2].0@ == "order"@ && r@[2].1@ == "asc"@,
        r@[3].0@ == "per_page"@ && r@[3].1@ == "100"@,
        r@[4].0@ == "page"@ && r@[4].1@ == decimal(page as nat),
{
    let mut number = String::new();
    push_decimal(&mut number, page as u128);
    assert(number@ =~= decimal(page as nat));
    let mut out: Vec<(&'static str, String)> = Vec::new();
    out.push(("q", query.to_owned()));
    out.push(("sort", "stars".to_owned()));
    out.push(("order", "asc".to_owned()));
    out.push(("per_page", "100".to_owned()));
    out.push(("page", number));
    out
}

/// The lines of a batched query for the first so many names.
pub open spec fn query_lines(names: Seq<Seq<char>>) -> Seq<char>
    decreases names.len(),
{
    if names.len() == 0 {
        Seq::empty()
    } else {
        query_lines(names.drop_last()) + "r"@ + decimal((names.len() - 1) as nat)
            + ": repository(owner: \""@ + before(names.last(), '/') + "\", name: \""@ + after(
            names.last(),
            '/',
        ) + "\") { databaseId nameWithOwner createdAt pushedAt stargazerCount forkCount issues(states: OPEN) { totalCount } pullRequests(states: OPEN) { totalCount } watchers { totalCount } primaryLanguage { name } }\n"@
    }
}

/// The batched query for a list of names.
pub open spec fn query_text(names: Seq<Seq<char>>) -> Seq<char> {
    "query {\n"@ + query_lines(names) + "}"@
}

/// A batched query asks for every name under the number of its place: for the repo of that name
/// and for that of its owner, and for its star count.
pub proof fn law_a_batch_asks_for_every_name(
    names: Seq<Seq<char>>,
    k: int,
    owner: Seq<char>,
    repo: Seq<char>,
)
    requires
        0 <= k < names.len(),
        names[k] == owner + seq!['/'] + repo,
        !owner.contains('/'),
    ensures
        holds(
            query_text(names),
            "r"@ + decimal(k as nat) + ": repository(owner: \""@ + owner + "\", name: \""@ + repo
                + "\") { databaseId nameWithOwner createdAt pushedAt stargazerCount"@,
        ),
{
    broadcast use {lemma_holds_before, lemma_holds_behind};

    let asked = "r"@ + decimal(k as nat) + ": repository(owner: \""@ + owner + "\", name: \""@
        + repo + "\") { databaseId nameWithOwner createdAt pushedAt stargazerCount"@;
    lemma_lines_ask_for_every_name(names, k, owner, repo, asked);
}

#[verifier::spinoff_prover]
#[verifier::rlimit(60)]
proof fn lemma_lines_ask_for_every_name(
    names: Seq<Seq<char>>,
    k: int,
    owner: Seq<char>,
    repo: Seq<char>,
    asked: Seq<char>,
)
    requires
        0 <= k < names.len(),
        names[k] == owner + seq!['/'] + repo,
        !owner.contains('/'),
        asked == "r"@ + decimal(k as nat) + ": repository(owner: \""@ + owner + "\", name: \""@
            + repo + "\") { databaseId nameWithOwner createdAt pushedAt stargazerCount"@,
    ensures
        holds(query_lines(names), asked),
    decreases names.len(),
{
    broadcast use {lemma_holds_before, lemma_holds_behind};

    let rest = names.drop_last();
    if k < rest.len() {
        lemma_lines_ask_for_every_name(rest, k, owner, repo, asked);
    } else {
        let name = names.last();
        lemma_run(name, '/');
        let first = run(name, '/') as int;
        assert(name[owner.len() as int] == '/');
        assert(name.contains('/'));
        if first < owner.len() {
            assert(owner[first] == '/');
        }
        assert(before(name, '/') =~= owner);
        assert(after(name, '/') =~= repo);
        let head = query_lines(rest);
        let end = "\") { databaseId nameWithOwner createdAt pushedAt stargazerCount forkCount issues(states: OPEN) { totalCount } pullRequests(states: OPEN) { totalCount } watchers { totalCount } primaryLanguage { name } }\n"@;
        let short = "\") { databaseId nameWithOwner createdAt pushedAt stargazerCount"@;
        assert(end.take(short.len() as int) =~= short) by {
            reveal_strlit("\") { databaseId nameWithOwner createdAt pushedAt stargazerCount forkCount issues(states: OPEN) { totalCount } pullRequests(states: OPEN) { totalCount } watchers { totalCount } primaryLanguage { name } }\n");
            reveal_strlit("\") { databaseId nameWithOwner createdAt pushedAt stargazerCount");
        }
        assert(short.len() <= end.len()) by {
            reveal_strlit("\") { databaseId nameWithOwner createdAt pushedAt stargazerCount forkCount issues(states: OPEN) { totalCount } pullRequests(states: OPEN) { totalCount } watchers { totalCount } primaryLanguage { name } }\n");
            reveal_strlit("\") { databaseId nameWithOwner createdAt pushedAt stargazerCount");
        }
        let front = "r"@ + decimal(k as nat) + ": repository(owner: \""@ + owner + "\", name: \""@
            + repo;
        assert(query_lines(names) =~= head + (front + end));
        assert((front + end).subrange(0, 0int + asked.len()) =~= asked);
    }
}

/// One query for a whole batch, one aliased repository a name.
///
/// A name is about to be spliced into a query string: the first one that is off GitHub's
/// charset refuses the batch, and is handed back.
pub fn batch_query(names: &Vec<&str>) -> (r: Result<String, String>)
    ensures
        match r {
            Ok(query) => query@ == query_text(texts(names@)) && forall|k: int|
                0 <= k < names@.len() ==> queryable(#[trigger] names@[k]@),
            Err(name) => exists|k: int|
                0 <= k < names@.len() && (#[trigger] names@[k])@ == name@ && !queryable(names@[k]@)
                    && forall|j: int| 0 <= j < k ==> queryable(#[trigger] names@[j]@),
        },
{
    let ghost all = texts(names@);
    let mut query = "query {\n".to_owned();
    let mut i: usize = 0;
    assert(all.take(0) =~= Seq::<Seq<char>>::empty());
    assert("query {\n"@ + Seq::<char>::empty() =~= "query {\n"@);
    while i < names.len()
        invariant
            i <= names.len(),
            all == texts(names@),
            query@ == "query {\n"@ + query_lines(all.take(i as int)),
            forall|k: int| 0 <= k < i ==> queryable(#[trigger] names@[k]@),
        decreases names.len() - i,
    {
        let name = names[i];
        let (owner, repo) = match query_parts(name) {
            Some(parts) => parts,
            None => {
                assert(names@[i as int]@ == name@);
                return Err(name.to_owned());
            },
        };
        assert(all.take(i + 1).drop_last() =~= all.take(i as int));
        assert(all.take(i + 1).last() == name@);
        query.append("r");
        push_decimal(&mut query, i as u128);
        query.append(": repository(owner: \"");
        query.append(owner);
        query.append("\", name: \"");
        query.append(repo);
        query.append(
            "\") { databaseId nameWithOwner createdAt pushedAt stargazerCount forkCount issues(states: OPEN) { totalCount } pullRequests(states: OPEN) { totalCount } watchers { totalCount } primaryLanguage { name } }\n",
        );
        assert(query@ =~= "query {\n"@ + query_lines(all.take(i + 1)));
        i += 1;
    }
    assert(all.take(i as int) =~= all);
    query.append("}");
    Ok(query)
}

// ---------------------------------------------------------------- waiting

/// What GitHub's answer carries about its limits, as the header texts.
#[derive(Debug, Clone, PartialEq, Eq)]
pub struct RateHeaders {
    pub retry_after: Option<String>,
    pub remaining: Option<String>,
    pub reset: Option<String>,
}

/// The number that a header holds.
pub open spec fn header_number(text: Option<String>) -> Option<int> {
    match text {
        Some(s) => integer_value(trimmed(s@)),
        None => None,
    }
}

fn header(text: &Option<String>) -> (r: Option<i64>)
    ensures
        opt_count(r) == header_number(*text),
{
    match text {
        Some(s) => parse_i64(trim_space(s.as_str())),
        None => None,
    }
}

/// A number of seconds between one and the longest wait.
pub open spec fn wait_within(secs: int) -> int {
    if secs < 1 {
        1
    } else if secs > MAX_BACKOFF {
        MAX_BACKOFF as int
    } else {
        secs
    }
}

fn clamp_wait(secs: i128) -> (r: u64)
    ensures
        r == wait_within(secs as int),
{
    if secs < 1 {
        1
    } else if secs > MAX_BACKOFF as i128 {
        MAX_BACKOFF
    } else {
        secs as u64
    }
}

/// One second, doubled so many times.
pub open spec fn doubled(times: int) -> int
    decreases times,
{
    if times <= 0 {
        1
    } else {
        2 * doubled(times - 1)
    }
}

/// Whether a status says that too much was asked.
pub open spec fn throttled(status: u16) -> bool {
    status == 403 || status == 429
}

/// How long to wait before the next attempt, or that there is none.
pub open spec fn wait_of(status: u16, headers: RateHeaders, attempt: u32, now: int) -> Option<
    int,
> {
    match header_number(headers.retry_after) {
        Some(secs) => Some(wait_within(secs)),
        None => if throttled(status) && header_number(headers.remaining) == Some(0int) {
            match header_number(headers.reset) {
                Some(reset) => Some(wait_within(reset - now + 1)),
                None => Some(1),
            }
        } else if throttled(status) || 500 <= status < 600 {
            Some(doubled(if attempt < 9 {
                attempt as int
            } else {
                9
            }))
        } else {
            None
        },
    }
}

/// GitHub says how long to wait, and it is believed: `Retry-After` where it can be read, whatever
/// else is said; then the moment at which a spent allowance is refilled, and a second more. Where
/// it does not say, a wait is twice as long as the one before, from a second on. No wait is
/// shorter than a second or longer than fifteen minutes, and what is neither a limit nor GitHub's
/// own failure is not tried again.
pub proof fn law_waits_follow_what_github_says(
    status: u16,
    headers: RateHeaders,
    attempt: u32,
    now: int,
)
    ensures
        ({
            let wait = wait_of(status, headers, attempt, now);
            let limit = status == 403 || status == 429;
            let said = header_number(headers.retry_after);
            let spent = limit && header_number(headers.remaining) == Some(0int);
            &&& wait is None <==> said is None && !limit && !(500 <= status <= 599)
            &&& wait matches Some(secs) ==> 1 <= secs <= 900
            &&& said matches Some(secs) ==> (1 <= secs <= 900 ==> wait == Some(secs)) && (secs < 1
                ==> wait == Some(1int)) && (secs > 900 ==> wait == Some(900int))
            &&& said is None && spent ==> (header_number(headers.reset) matches Some(reset) ==> {
                &&& 0 <= reset - now <= 899 ==> wait == Some(reset - now + 1)
                &&& reset - now < 0 ==> wait == Some(1int)
                &&& reset - now > 899 ==> wait == Some(900int)
            }) && (header_number(headers.reset) is None ==> wait == Some(1int))
            &&& said is None && !spent && wait is Some && attempt == 0 ==> wait == Some(1int)
            &&& said is None && !spent && wait is Some && 0 < attempt <= 9 ==> wait == Some(
                2 * wait_of(status, headers, (attempt - 1) as u32, now)->0,
            )
            &&& said is None && !spent && wait is Some && attempt > 9 ==> wait == wait_of(
                status,
                headers,
                9,
                now,
            )
        }),
{
    reveal_with_fuel(doubled, 11);
}

/// How long to wait before retrying, in seconds, or `None` if the answer is a hard failure.
///
/// GitHub signals three separate things here: `Retry-After` on the secondary rate limit,
/// `x-ratelimit-remaining: 0` plus a reset epoch on the primary one, and plain 5xx.
/// Everything else is the caller's problem.
pub fn backoff(status: u16, headers: &RateHeaders, attempt: u32, now: i64) -> (r: Option<u64>)
    ensures
        match r {
            Some(secs) => wait_of(status, *headers, attempt, now as int) == Some(secs as int),
            None => wait_of(status, *headers, attempt, now as int) is None,
        },
        r matches Some(secs) ==> 1 <= secs <= MAX_BACKOFF,
{
    if let Some(secs) = header(&headers.retry_after) {
        return Some(clamp_wait(secs as i128));
    }
    let limited = status == 403 || status == 429;
    if limited {
        if let Some(remaining) = header(&headers.remaining) {
            if remaining == 0 {
                return match header(&headers.reset) {
                    Some(reset) => Some(clamp_wait(reset as i128 - now as i128 + 1)),
                    None => Some(1),
                };
            }
        }
    }
    if limited || (500 <= status && status < 600) {
        let times: u32 = if attempt < 9 {
            attempt
        } else {
            9
        };
        let mut secs: u64 = 1;
        let mut i: u32 = 0;
        while i < times
            invariant
                i <= times <= 9,
                secs == doubled(i as int),
                i == 0 ==> secs == 1,
                i == 1 ==> secs == 2,
                i == 2 ==> secs == 4,
                i == 3 ==> secs == 8,
                i == 4 ==> secs == 16,
                i == 5 ==> secs == 32,
                i == 6 ==> secs == 64,
                i == 7 ==> secs == 128,
                i == 8 ==> secs == 256,
                i == 9 ==> secs == 512,
            decreases times - i,
        {
            secs = secs * 2;
            i += 1;
        }
        return Some(secs);
    }
    None
}

/// What to do about one answer.
#[derive(Debug, Clone, Copy, PartialEq, Eq, Structural)]
pub enum Step {
    /// The answer is what was asked for.
    Deliver,
    /// There is nothing there: deleted, renamed, or private.
    Missing,
    /// Ask again after so many seconds.
    Wait { secs: u64 },
    /// A hard failure.
    Refuse,
}

/// What to do about an answer: deliver a success, report what is not there, wait where GitHub
/// asks for it, and give up on everything else.
pub fn step(status: u16, headers: &RateHeaders, attempt: u32, now: i64) -> (r: Step)
    ensures
        match r {
            Step::Deliver => 200 <= status < 300,
            Step::Missing => status == 404,
            Step::Wait { secs } => !(200 <= status < 300) && status != 404 && wait_of(
                status,
                *headers,
                attempt,
                now as int,
            ) == Some(secs as int) && 1 <= secs <= MAX_BACKOFF,
            Step::Refuse => !(200 <= status < 300) && status != 404 && wait_of(
                status,
                *headers,
                attempt,
                now as int,
            ) is None,
        },
{
    if 200 <= status && status < 300 {
        Step::Deliver
    } else if status == 404 {
        Step::Missing
    } else {
        match backoff(status, headers, attempt, now) {
            Some(secs) => Step::Wait { secs },
            None => Step::Refuse,
        }
    }
}

/// The attempt that follows one, while any are left.
pub fn next_attempt(attempt: u32) -> (r: Option<u32>)
    ensures
        attempt + 1 < MAX_ATTEMPTS ==> r == Some((attempt + 1) as u32),
        attempt + 1 >= MAX_ATTEMPTS ==> r is None,
{
    if attempt < MAX_ATTEMPTS - 1 {
        Some(attempt + 1)
    } else {
        None
    }
}

/// The first characters of a text, so many at most.
pub open spec fn first_chars(s: Seq<char>, most: int) -> Seq<char> {
    if s.len() <= most {
        s
    } else {
        s.take(most)
    }
}

/// What is said of a request that failed hard: what it was, the status, and the start of what
/// GitHub wrote.
pub fn refusal(what: &str, status: &str, body: &str) -> (r: String)
    ensures
        r@ == what@ + " -> "@ + status@ + ": "@ + first_chars(trimmed(body@), 300),
{
    let mut out = what.to_owned();
    out.append(" -> ");
    out.append(status);
    out.append(": ");
    let shown = trim_space(body);
    let n = shown.unicode_len();
    if n <= 300 {
        out.append(shown);
    } else {
        out.append(shown.substring_char(0, 300));
        assert(shown@.subrange(0, 300) =~= shown@.take(300));
    }
    out
}

/// What is said of a request that kept being put off.
pub fn exhausted(what: &str) -> (r: String)
    ensures
        r@ == what@ + ": still rate-limited after "@ + decimal(MAX_ATTEMPTS as nat)
            + " attempts"@,
{
    let mut out = what.to_owned();
    out.append(": still rate-limited after ");
    push_decimal(&mut out, MAX_ATTEMPTS as u128);
    out.append(" attempts");
    out
}

/// What is said while a request waits.
pub fn waiting(status: &str, what: &str, secs: u64) -> (r: String)
    ensures
        r@ == "github: "@ + status@ + " on "@ + what@ + ", waiting "@ + decimal(
            (if secs < 1 {
                1
            } else {
                secs
            }) as nat,
        ) + "s"@,
{
    let mut out = "github: ".to_owned();
    out.append(status);
    out.append(" on ");
    out.append(what);
    out.append(", waiting ");
    push_decimal(
        &mut out,
        if secs < 1 {
            1
        } else {
            secs as u128
        },
    );
    out.append("s");
    out
}

// ---------------------------------------------------------------- reading an answer

/// `serde_json::Value`, a JSON document that was read.
#[verifier::external_type_specification]
#[verifier::external_body]
pub struct ExValue(serde_json::Value);

/// `serde_json::Error`, what is wrong with a text that is no JSON document.
#[verifier::external_type_specification]
#[verifier::external_body]
pub struct ExError(serde_json::Error);

/// One place of a JSON document: nothing, an integer of 64 bits, a text, a list of so many
/// values, or anything else.
pub enum Json {
    Null,
    Int(int),
    Text(Seq<char>),
    Array(nat),
    Other,
}

/// What a JSON document holds, by the JSON Pointers that `serde_json::Value::pointer` resolves
/// in it.
pub uninterp spec fn json_members(doc: serde_json::Value) -> Map<Seq<char>, Json>;

/// What `serde_json::from_slice` reads out of a text: the members of a document, or nothing
/// where the text is none.
pub uninterp spec fn json_document(bytes: Seq<u8>) -> Option<Map<Seq<char>, Json>>;

/// Calls `serde_json::from_slice` for a `serde_json::Value`, and trusts that what comes of it
/// rests on the text alone.
#[verifier::external_body]
fn read_json(bytes: &[u8]) -> (r: Result<serde_json::Value, serde_json::Error>)
    ensures
        match r {
            Ok(doc) => json_document(bytes@) == Some(json_members(doc)),
            Err(_) => json_document(bytes@) is None,
        },
{
    serde_json::from_slice(bytes)
}

/// The value at a pointer; a place that is not there is null.
pub open spec fn at(members: Map<Seq<char>, Json>, pointer: Seq<char>) -> Json {
    if members.dom().contains(pointer) {
        members[pointer]
    } else {
        Json::Null
    }
}

/// The text at a pointer.
pub open spec fn text_at(members: Map<Seq<char>, Json>, pointer: Seq<char>) -> Option<Seq<char>> {
    match at(members, pointer) {
        Json::Text(s) => Some(s),
        _ => None,
    }
}

/// The integer at a pointer.
pub open spec fn integer_at(members: Map<Seq<char>, Json>, pointer: Seq<char>) -> Option<int> {
    match at(members, pointer) {
        Json::Int(n) => Some(n),
        _ => None,
    }
}

/// The length of the list at a pointer; anything else is an empty list.
pub open spec fn length_at(members: Map<Seq<char>, Json>, pointer: Seq<char>) -> nat {
    match at(members, pointer) {
        Json::Array(n) => n,
        _ => 0,
    }
}

/// What a document is as a whole.
pub open spec fn root(members: Map<Seq<char>, Json>) -> Json {
    at(members, Seq::empty())
}

/// Trusts `serde_json::Value::pointer`: it gives the value at a pointer where there is one, and
/// that value, taken as a document of its own, is what the document holds at the pointer.
pub assume_specification<'a>[ serde_json::Value::pointer ](
    doc: &'a serde_json::Value,
    pointer: &str,
) -> (r: Option<&'a serde_json::Value>)
    ensures
        match r {
            Some(value) => json_members(*doc).dom().contains(pointer@) && root(
                json_members(*value),
            ) == json_members(*doc)[pointer@],
            None => !json_members(*doc).dom().contains(pointer@),
        },
;

/// Trusts `serde_json::Value::as_str`: it gives the text of a value that is one, and nothing
/// of any other.
pub assume_specification[ serde_json::Value::as_str ](value: &serde_json::Value) -> (r: Option<
    &str,
>)
    ensures
        match r {
            Some(s) => root(json_members(*value)) == Json::Text(s@),
            None => !(root(json_members(*value)) is Text),
        },
;

/// Trusts `serde_json::Value::as_i64`: it gives the integer of a value that is one of 64 bits,
/// and nothing of any other.
pub assume_specification[ serde_json::Value::as_i64 ](value: &serde_json::Value) -> (r: Option<
    i64,
>)
    ensures
        match r {
            Some(n) => root(json_members(*value)) == Json::Int(n as int),
            None => !(root(json_members(*value)) is Int),
        },
;

/// Trusts `serde_json::Value::is_null`: it tells whether a value is null.
pub assume_specification[ serde_json::Value::is_null ](value: &serde_json::Value) -> (r: bool)
    ensures
        r == (root(json_members(*value)) is Null),
;

/// Trusts `serde_json::Value::as_array`: it gives the list of a value that is one, and nothing
/// of any other.
pub assume_specification[ serde_json::Value::as_array ](value: &serde_json::Value) -> (r: Option<
    &Vec<serde_json::Value>,
>)
    ensures
        match r {
            Some(list) => root(json_members(*value)) == Json::Array(list@.len()),
            None => !(root(json_members(*value)) is Array),
        },
;

fn json_text(doc: &serde_json::Value, pointer: &str) -> (r: Option<String>)
    ensures
        opt_text(r) == text_at(json_members(*doc), pointer@),
{
    match doc.pointer(pointer) {
        Some(value) => match value.as_str() {
            Some(s) => Some(s.to_owned()),
            None => None,
        },
        None => None,
    }
}

fn json_integer(doc: &serde_json::Value, pointer: &str) -> (r: Option<i64>)
    ensures
        opt_count(r) == integer_at(json_members(*doc), pointer@),
{
    match doc.pointer(pointer) {
        Some(value) => value.as_i64(),
        None => None,
    }
}

fn json_null(doc: &serde_json::Value, pointer: &str) -> (r: bool)
    ensures
        r == (at(json_members(*doc), pointer@) is Null),
{
    match doc.pointer(pointer) {
        Some(value) => value.is_null(),
        None => true,
    }
}

fn json_length(doc: &serde_json::Value, pointer: &str) -> (r: usize)
    ensures
        r == length_at(json_members(*doc), pointer@),
{
    match doc.pointer(pointer) {
        Some(value) => match value.as_array() {
            Some(list) => list.len(),
            None => 0,
        },
        None => 0,
    }
}

/// A repository node of a GraphQL answer: each field where it is there.
#[derive(Debug, Clone, PartialEq, Eq)]
pub struct GraphNode {
    pub database_id: Option<i64>,
    pub name_with_owner: Option<String>,
    pub created_at: Option<String>,
    pub pushed_at: Option<String>,
    pub stargazer_count: Option<i64>,
    pub fork_count: Option<i64>,
    pub issues: Option<i64>,
    pub pull_requests: Option<i64>,
    pub watchers: Option<i64>,
    pub language: Option<String>,
}

/// What a node says.
pub struct NodeView {
    pub database_id: Option<int>,
    pub name_with_owner: Option<Seq<char>>,
    pub created_at: Option<Seq<char>>,
    pub pushed_at: Option<Seq<char>>,
    pub stargazer_count: Option<int>,
    pub fork_count: Option<int>,
    pub issues: Option<int>,
    pub pull_requests: Option<int>,
    pub watchers: Option<int>,
    pub language: Option<Seq<char>>,
}

impl View for GraphNode {
    type V = NodeView;

    open spec fn view(&self) -> NodeView {
        NodeView {
            database_id: opt_count(self.database_id),
            name_with_owner: opt_text(self.name_with_owner),
            created_at: opt_text(self.created_at),
            pushed_at: opt_text(self.pushed_at),
            stargazer_count: opt_count(self.stargazer_count),
            fork_count: opt_count(self.fork_count),
            issues: opt_count(self.issues),
            pull_requests: opt_count(self.pull_requests),
            watchers: opt_count(self.watchers),
            language: opt_text(self.language),
        }
    }
}

/// The node at a pointer of an answer.
pub open spec fn node_at(members: Map<Seq<char>, Json>, pointer: Seq<char>) -> NodeView {
    NodeView {
        database_id: integer_at(members, pointer + "/databaseId"@),
        name_with_owner: text_at(members, pointer + "/nameWithOwner"@),
        created_at: text_at(members, pointer + "/createdAt"@),
        pushed_at: text_at(members, pointer + "/pushedAt"@),
        stargazer_count: integer_at(members, pointer + "/stargazerCount"@),
        fork_count: integer_at(members, pointer + "/forkCount"@),
        issues: integer_at(members, pointer + "/issues/totalCount"@),
        pull_requests: integer_at(members, pointer + "/pullRequests/totalCount"@),
        watchers: integer_at(members, pointer + "/watchers/totalCount"@),
        language: text_at(members, pointer + "/primaryLanguage/name"@),
    }
}

fn joined(pointer: &str, rest: &str) -> (r: String)
    ensures
        r@ == pointer@ + rest@,
{
    let mut out = pointer.to_owned();
    out.append(rest);
    out
}

fn read_node(doc: &serde_json::Value, pointer: &str) -> (r: GraphNode)
    ensures
        r@ == node_at(json_members(*doc), pointer@),
{
    GraphNode {
        database_id: json_integer(doc, joined(pointer, "/databaseId").as_str()),
        name_with_owner: json_text(doc, joined(pointer, "/nameWithOwner").as_str()),
        created_at: json_text(doc, joined(pointer, "/createdAt").as_str()),
        pushed_at: json_text(doc, joined(pointer, "/pushedAt").as_str()),
        stargazer_count: json_integer(doc, joined(pointer, "/stargazerCount").as_str()),
        fork_count: json_integer(doc, joined(pointer, "/forkCount").as_str()),
        issues: json_integer(doc, joined(pointer, "/issues/totalCount").as_str()),
        pull_requests: json_integer(doc, joined(pointer, "/pullRequests/totalCount").as_str()),
        watchers: json_integer(doc, joined(pointer, "/watchers/totalCount").as_str()),
        language: json_text(doc, joined(pointer, "/primaryLanguage/name").as_str()),
    }
}

/// The field that a node needs and does not have.
#[derive(Debug, Clone, Copy, PartialEq, Eq, Structural)]
pub enum NodeField {
    DatabaseId,
    NameWithOwner,
    CreatedAt,
    StargazerCount,
}

/// The name of a field.
pub open spec fn field_name(field: NodeField) -> Seq<char> {
    match field {
        NodeField::DatabaseId => "databaseId"@,
        NodeField::NameWithOwner => "nameWithOwner"@,
        NodeField::CreatedAt => "createdAt"@,
        NodeField::StargazerCount => "stargazerCount"@,
    }
}

impl NodeField {
    pub fn name(&self) -> (r: &'static str)
        ensures
            r@ == field_name(*self),
    {
        match self {
            NodeField::DatabaseId => "databaseId",
            NodeField::NameWithOwner => "nameWithOwner",
            NodeField::CreatedAt => "createdAt",
            NodeField::StargazerCount => "stargazerCount",
        }
    }
}

/// The open issues and the open pull requests of a node together.
pub open spec fn open_count(node: NodeView) -> Option<int> {
    match (node.issues, node.pull_requests) {
        (Some(issues), Some(requests)) => Some(issues + requests),
        _ => None,
    }
}

/// Whether the open issues and pull requests of a node are a count of 64 bits.
pub open spec fn open_count_fits(node: NodeView) -> bool {
    open_count(node) matches Some(n) ==> i64::MIN <= n <= i64::MAX
}

/// The repo that a node describes, or the first field that it needs and does not have.
pub open spec fn repo_of(node: NodeView) -> Result<RepoView, NodeField> {
    match node.database_id {
        None => Err(NodeField::DatabaseId),
        Some(id) => match node.name_with_owner {
            None => Err(NodeField::NameWithOwner),
            Some(full_name) => match node.created_at {
                None => Err(NodeField::CreatedAt),
                Some(created_at) => match node.stargazer_count {
                    None => Err(NodeField::StargazerCount),
                    Some(stars) => Ok(
                        RepoView {
                            id,
                            full_name,
                            created_at,
                            stargazers_count: stars,
                            forks_count: node.fork_count,
                            open_issues_count: open_count(node),
                            subscribers_count: node.watchers,
                            pushed_at: node.pushed_at,
                            language: node.language,
                        },
                    ),
                },
            },
        },
    }
}

/// A GraphQL repository node reshaped into a [`Repo`], preserving REST's meanings:
/// `open_issues_count` counts open issues plus open PRs, and `subscribers_count` is what
/// GraphQL calls watchers.
pub fn repo_from_node(node: GraphNode) -> (r: Result<Repo, NodeField>)
    requires
        open_count_fits(node@),
    ensures
        match r {
            Ok(repo) => repo_of(node@) == Ok::<RepoView, NodeField>(repo@),
            Err(field) => repo_of(node@) == Err::<RepoView, NodeField>(field),
        },
{
    let id = match node.database_id {
        Some(id) => id,
        None => return Err(NodeField::DatabaseId),
    };
    let full_name = match node.name_with_owner {
        Some(full_name) => full_name,
        None => return Err(NodeField::NameWithOwner),
    };
    let created_at = match node.created_at {
        Some(created_at) => created_at,
        None => return Err(NodeField::CreatedAt),
    };
    let stargazers_count = match node.stargazer_count {
        Some(stars) => stars,
        None => return Err(NodeField::StargazerCount),
    };
    let open_issues_count = match (node.issues, node.pull_requests) {
        (Some(issues), Some(requests)) => Some(issues + requests),
        _ => None,
    };
    Ok(
        Repo {
            id,
            full_name,
            created_at,
            stargazers_count,
            forks_count: node.fork_count,
            open_issues_count,
            subscribers_count: node.watchers,
            pushed_at: node.pushed_at,
            language: node.language,
        },
    )
}

/// Why a batch got no verdicts.
#[derive(Debug, Clone, PartialEq, Eq)]
pub enum BatchError {
    /// The answer is no JSON document.
    Undecodable,
    /// The whole query was refused, with the first reason that was given.
    NoData(String),
    /// The node of a name lacks a field.
    BadNode { slot: usize, field: NodeField },
    /// The node of a name counts more open issues than a count holds.
    TooManyIssues { slot: usize },
}

/// What an error of a batch says.
pub enum BatchFault {
    Undecodable,
    NoData(Seq<char>),
    BadNode { slot: int, field: NodeField },
    TooManyIssues { slot: int },
}

impl View for BatchError {
    type V = BatchFault;

    open spec fn view(&self) -> BatchFault {
        match *self {
            BatchError::Undecodable => BatchFault::Undecodable,
            BatchError::NoData(why) => BatchFault::NoData(why@),
            BatchError::BadNode { slot, field } => BatchFault::BadNode { slot: slot as int, field },
            BatchError::TooManyIssues { slot } => BatchFault::TooManyIssues { slot: slot as int },
        }
    }
}

/// What is said of a batch without verdicts.
pub open spec fn fault_text(fault: BatchFault, url: Seq<char>) -> Seq<char> {
    match fault {
        BatchFault::Undecodable => "decoding "@ + url,
        BatchFault::NoData(why) => "POST "@ + url + ": no data ("@ + why + ")"@,
        BatchFault::BadNode { field, .. } => "graphql node has no "@ + field_name(field),
        BatchFault::TooManyIssues { .. } => "graphql node counts too many open issues"@,
    }
}

impl BatchError {
    pub fn message(&self, url: &str) -> (r: String)
        ensures
            r@ == fault_text(self@, url@),
    {
        match self {
            BatchError::Undecodable => joined("decoding ", url),
            BatchError::NoData(why) => {
                let mut out = "POST ".to_owned();
                out.append(url);
                out.append(": no data (");
                out.append(why.as_str());
                out.append(")");
                out
            },
            BatchError::BadNode { field, .. } => joined("graphql node has no ", field.name()),
            BatchError::TooManyIssues { .. } => {
                "graphql node counts too many open issues".to_owned()
            },
        }
    }
}

/// Where an answer lists an error.
pub open spec fn error_at(k: int) -> Seq<char> {
    "/errors/"@ + decimal(k as nat)
}

/// Where an answer holds the node of a name.
pub open spec fn slot_at(i: int) -> Seq<char> {
    "/data/r"@ + decimal(i as nat)
}

/// Whether an error of an answer speaks of an alias and says of which kind it is.
pub open spec fn error_of(members: Map<Seq<char>, Json>, k: int, alias: Seq<char>) -> bool {
    &&& length_at(members, error_at(k) + "/path"@) > 0
    &&& text_at(members, error_at(k) + "/path/0"@) == Some(alias)
    &&& text_at(members, error_at(k) + "/type"@) is Some
}

/// The kind of the last of the first so many errors that speak of an alias.
pub open spec fn error_type(members: Map<Seq<char>, Json>, count: int, alias: Seq<char>) -> Option<
    Seq<char>,
>
    decreases count,
{
    if count <= 0 {
        None
    } else if error_of(members, count - 1, alias) {
        text_at(members, error_at(count - 1) + "/type"@)
    } else {
        error_type(members, count - 1, alias)
    }
}

/// What an answer says of one name.
pub open spec fn slot_of(members: Map<Seq<char>, Json>, i: int) -> Result<VerdictView, BatchFault> {
    if at(members, slot_at(i)) is Null {
        let errors = length_at(members, "/errors"@) as int;
        Ok(
            match error_type(members, errors, "r"@ + decimal(i as nat)) {
                Some(kind) => if kind == "NOT_FOUND"@ {
                    VerdictView::Gone
                } else if kind == "FORBIDDEN"@ {
                    VerdictView::Blocked
                } else {
                    VerdictView::Failed(kind)
                },
                None => VerdictView::Failed("no error given"@),
            },
        )
    } else {
        let node = node_at(members, slot_at(i));
        match repo_of(node) {
            Ok(repo) => if open_count_fits(node) {
                Ok(VerdictView::Found(repo))
            } else {
                Err(BatchFault::TooManyIssues { slot: i })
            },
            Err(field) => Err(BatchFault::BadNode { slot: i, field }),
        }
    }
}

/// What an answer says of the first so many names; the first node that cannot be read decides
/// for all.
pub open spec fn slots_of(members: Map<Seq<char>, Json>, count: int) -> Result<
    Seq<VerdictView>,
    BatchFault,
>
    decreases count,
{
    if count <= 0 {
        Ok(Seq::empty())
    } else {
        match slots_of(members, count - 1) {
            Err(fault) => Err(fault),
            Ok(head) => match slot_of(members, count - 1) {
                Ok(verdict) => Ok(head.push(verdict)),
                Err(fault) => Err(fault),
            },
        }
    }
}

/// What an answer says of a batch of so many names. An answer without data refused the whole
/// query: no verdict on anyone.
pub open spec fn batch_of(members: Map<Seq<char>, Json>, count: int) -> Result<
    Seq<VerdictView>,
    BatchFault,
> {
    if at(members, "/data"@) is Null {
        let why = if length_at(members, "/errors"@) > 0 {
            text_at(members, "/errors/0/message"@)
        } else {
            None
        };
        Err(
            BatchFault::NoData(
                match why {
                    Some(why) => why,
                    None => "no error given"@,
                },
            ),
        )
    } else {
        slots_of(members, count)
    }
}

fn error_pointer(k: usize) -> (r: String)
    ensures
        r@ == error_at(k as int),
{
    let mut out = "/errors/".to_owned();
    push_decimal(&mut out, k as u128);
    out
}

fn find_error(doc: &serde_json::Value, errors: usize, alias: &str) -> (r: Option<String>)
    ensures
        opt_text(r) == error_type(json_members(*doc), errors as int, alias@),
{
    let mut k = errors;
    while k > 0
        invariant
            k <= errors,
            error_type(json_members(*doc), errors as int, alias@) == error_type(
                json_members(*doc),
                k as int,
                alias@,
            ),
        decreases k,
    {
        let error = error_pointer(k - 1);
        if json_length(doc, joined(error.as_str(), "/path").as_str()) > 0 {
            if let Some(first) = json_text(doc, joined(error.as_str(), "/path/0").as_str()) {
                if same(first.as_str(), alias) {
                    let kind = json_text(doc, joined(error.as_str(), "/type").as_str());
                    if kind.is_some() {
                        return kind;
                    }
                }
            }
        }
        k -= 1;
    }
    None
}

fn counts_fit(node: &GraphNode) -> (r: bool)
    ensures
        r == open_count_fits(node@),
{
    match (node.issues, node.pull_requests) {
        (Some(issues), Some(requests)) => {
            let sum: i128 = issues as i128 + requests as i128;
            i64::MIN as i128 <= sum && sum <= i64::MAX as i128
        },
        _ => true,
    }
}

fn missing_field(node: &GraphNode) -> (r: Option<NodeField>)
    ensures
        match r {
            Some(field) => repo_of(node@) == Err::<RepoView, NodeField>(field),
            None => repo_of(node@) is Ok,
        },
{
    if node.database_id.is_none() {
        Some(NodeField::DatabaseId)
    } else if node.name_with_owner.is_none() {
        Some(NodeField::NameWithOwner)
    } else if node.created_at.is_none() {
        Some(NodeField::CreatedAt)
    } else if node.stargazer_count.is_none() {
        Some(NodeField::StargazerCount)
    } else {
        None
    }
}

fn slot_verdict(doc: &serde_json::Value, errors: usize, i: usize) -> (r: Result<
    Verdict,
    BatchError,
>)
    requires
        errors == length_at(json_members(*doc), "/errors"@),
    ensures
        match r {
            Ok(verdict) => slot_of(json_members(*doc), i as int) == Ok::<VerdictView, BatchFault>(
                verdict@,
            ),
            Err(error) => slot_of(json_members(*doc), i as int) == Err::<VerdictView, BatchFault>(
                error@,
            ),
        },
{
    let mut pointer = "/data/r".to_owned();
    push_decimal(&mut pointer, i as u128);
    if json_null(doc, pointer.as_str()) {
        let mut alias = "r".to_owned();
        push_decimal(&mut alias, i as u128);
        return Ok(
            match find_error(doc, errors, alias.as_str()) {
                Some(kind) => {
                    if same(kind.as_str(), "NOT_FOUND") {
                        Verdict::Gone
                    } else if same(kind.as_str(), "FORBIDDEN") {
                        Verdict::Blocked
                    } else {
                        Verdict::Failed(kind)
                    }
                },
                None => Verdict::Failed("no error given".to_owned()),
            },
        );
    }
    let node = read_node(doc, pointer.as_str());
    if let Some(field) = missing_field(&node) {
        return Err(BatchError::BadNode { slot: i, field });
    }
    if !counts_fit(&node) {
        return Err(BatchError::TooManyIssues { slot: i });
    }
    match repo_from_node(node) {
        Ok(repo) => Ok(Verdict::Found(repo)),
        Err(field) => Err(BatchError::BadNode { slot: i, field }),
    }
}

/// The verdicts that a document holds on a batch of so many names, in their order.
pub fn verdicts(doc: &serde_json::Value, count: usize) -> (r: Result<Vec<Verdict>, BatchError>)
    ensures
        match r {
            Ok(list) => batch_of(json_members(*doc), count as int) == Ok::<
                Seq<VerdictView>,
                BatchFault,
            >(verdict_views(list@)),
            Err(error) => batch_of(json_members(*doc), count as int) == Err::<
                Seq<VerdictView>,
                BatchFault,
            >(error@),
        },
{
    let errors = json_length(doc, "/errors");
    if json_null(doc, "/data") {
        let why = if errors > 0 {
            json_text(doc, "/errors/0/message")
        } else {
            None
        };
        return Err(
            BatchError::NoData(
                match why {
                    Some(why) => why,
                    None => "no error given".to_owned(),
                },
            ),
        );
    }
    let mut out: Vec<Verdict> = Vec::new();
    let mut i: usize = 0;
    assert(verdict_views(out@) =~= Seq::<VerdictView>::empty());
    while i < count
        invariant
            i <= count,
            errors == length_at(json_members(*doc), "/errors"@),
            !(at(json_members(*doc), "/data"@) is Null),
            slots_of(json_members(*doc), i as int) == Ok::<Seq<VerdictView>, BatchFault>(
                verdict_views(out@),
            ),
        decreases count - i,
    {
        let ghost was = out@;
        match slot_verdict(doc, errors, i) {
            Ok(verdict) => {
                out.push(verdict);
                assert(verdict_views(out@) =~= verdict_views(was).push(verdict@));
            },
            Err(error) => {
                proof {
                    lemma_first_fault(json_members(*doc), i as int, count as int);
                }
                return Err(error);
            },
        }
        i += 1;
    }
    Ok(out)
}

/// Once a node cannot be read, what follows changes nothing.
proof fn lemma_first_fault(members: Map<Seq<char>, Json>, i: int, count: int)
    requires
        0 <= i < count,
        slots_of(members, i + 1) is Err,
    ensures
        slots_of(members, count) == slots_of(members, i + 1),
    decreases count - i,
{
    if count > i + 1 {
        lemma_first_fault(members, i, count - 1);
    }
}

/// The verdicts of a batch of so many names, out of the bytes of GitHub's answer.
pub fn read_verdicts(body: &[u8], count: usize) -> (r: Result<Vec<Verdict>, BatchError>)
    ensures
        match json_document(body@) {
            None => r matches Err(error) && error@ == BatchFault::Undecodable,
            Some(members) => match r {
                Ok(list) => batch_of(members, count as int) == Ok::<Seq<VerdictView>, BatchFault>(
                    verdict_views(list@),
                ),
                Err(error) => batch_of(members, count as int) == Err::<
                    Seq<VerdictView>,
                    BatchFault,
                >(error@),
            },
        },
{
    match read_json(body) {
        Ok(doc) => verdicts(&doc, count),
        Err(_) => Err(BatchError::Undecodable),
    }
}

/// The verdicts of a batch come one a name, in the order of the names.
pub proof fn law_verdicts_come_in_order(members: Map<Seq<char>, Json>, count: int)
    requires
        count >= 0,
    ensures
        batch_of(members, count) matches Ok(list) ==> list.len() == count && forall|i: int|
            0 <= i < count ==> slot_of(members, i) == Ok::<VerdictView, BatchFault>(
                #[trigger] list[i],
            ),
{
    if !(at(members, "/data"@) is Null) {
        lemma_slots_in_order(members, count);
    }
}

proof fn lemma_slots_in_order(members: Map<Seq<char>, Json>, count: int)
    requires
        count >= 0,
    ensures
        slots_of(members, count) matches Ok(list) ==> list.len() == count && forall|i: int|
            0 <= i < count ==> slot_of(members, i) == Ok::<VerdictView, BatchFault>(
                #[trigger] list[i],
            ),
    decreases count,
{
    if count > 0 {
        lemma_slots_in_order(members, count - 1);
    }
}

/// A batch has verdicts exactly where the answer has data and every name's part of it can be
/// read; otherwise the first part that cannot be read says why.
pub proof fn law_the_first_bad_part_spoils_a_batch(members: Map<Seq<char>, Json>, count: int)
    requires
        count >= 0,
        !(at(members, "/data"@) is Null),
    ensures
        batch_of(members, count) is Ok <==> forall|i: int|
            0 <= i < count ==> (#[trigger] slot_of(members, i)) is Ok,
        forall|i: int|
            0 <= i < count && (#[trigger] slot_of(members, i)) is Err && (forall|j: int|
                0 <= j < i ==> (#[trigger] slot_of(members, j)) is Ok) ==> batch_of(members, count)
                == Err::<Seq<VerdictView>, BatchFault>(slot_of(members, i)->Err_0),
    decreases count,
{
    if count > 0 {
        law_the_first_bad_part_spoils_a_batch(members, count - 1);
    }
}

/// An answer without data has no verdict on anyone.
pub proof fn law_no_data_is_no_verdict(members: Map<Seq<char>, Json>, count: int)
    requires
        at(members, "/data"@) is Null,
    ensures
        batch_of(members, count) is Err,
        length_at(members, "/errors"@) > 0 ==> (text_at(members, "/errors/0/message"@) matches Some(
            why,
        ) ==> batch_of(members, count) == Err::<Seq<VerdictView>, BatchFault>(
            BatchFault::NoData(why),
        )),
{
}

/// Retiring a series needs a definite answer: a repo is gone only where its node is null and
/// the error that speaks of it is NOT_FOUND.
pub proof fn law_only_not_found_is_gone(members: Map<Seq<char>, Json>, i: int)
    ensures
        slot_of(members, i) == Ok::<VerdictView, BatchFault>(VerdictView::Gone) <==> at(
            members,
            slot_at(i),
        ) is Null && error_type(
            members,
            length_at(members, "/errors"@) as int,
            "r"@ + decimal(i as nat),
        ) == Some("NOT_FOUND"@),
{
    reveal_strlit("NOT_FOUND");
    reveal_strlit("FORBIDDEN");
}

/// A node that is there is a repo with what the node says of it: its open issues and its open
/// pull requests are counted together, and its watchers are its subscribers.
pub proof fn law_a_node_is_the_repo_that_it_describes(members: Map<Seq<char>, Json>, i: int)
    ensures
        slot_of(members, i) matches Ok(VerdictView::Found(repo)) ==> {
            let node = "/data/r"@ + decimal(i as nat);
            let issues = integer_at(members, node + "/issues/totalCount"@);
            let requests = integer_at(members, node + "/pullRequests/totalCount"@);
            &&& !(at(members, node) is Null)
            &&& integer_at(members, node + "/databaseId"@) == Some(repo.id)
            &&& text_at(members, node + "/nameWithOwner"@) == Some(repo.full_name)
            &&& text_at(members, node + "/createdAt"@) == Some(repo.created_at)
            &&& integer_at(members, node + "/stargazerCount"@) == Some(repo.stargazers_count)
            &&& repo.forks_count == integer_at(members, node + "/forkCount"@)
            &&& repo.subscribers_count == integer_at(members, node + "/watchers/totalCount"@)
            &&& repo.pushed_at == text_at(members, node + "/pushedAt"@)
            &&& repo.language == text_at(members, node + "/primaryLanguage/name"@)
            &&& issues is Some && requests is Some ==> repo.open_issues_count == Some(
                issues->0 + requests->0,
            )
            &&& issues is None || requests is None ==> repo.open_issues_count is None
        },
{
}

/// Whether a node of an answer has all that a repo needs.
pub open spec fn complete(members: Map<Seq<char>, Json>, i: int) -> bool {
    let node = "/data/r"@ + decimal(i as nat);
    &&& integer_at(members, node + "/databaseId"@) is Some
    &&& text_at(members, node + "/nameWithOwner"@) is Some
    &&& text_at(members, node + "/createdAt"@) is Some
    &&& integer_at(members, node + "/stargazerCount"@) is Some
}

/// What becomes of a name: a node that is there and has all that a repo needs is found, one that
/// lacks any of it spoils the batch, and a name without a node is gone, blocked or failed by the
/// error that speaks of it.
pub proof fn law_a_name_is_found_or_its_error_decides(members: Map<Seq<char>, Json>, i: int)
    ensures
        ({
            let there = !(at(members, "/data/r"@ + decimal(i as nat)) is Null);
            let said = error_type(
                members,
                length_at(members, "/errors"@) as int,
                "r"@ + decimal(i as nat),
            );
            &&& there && !complete(members, i) ==> (slot_of(members, i) matches Err(
                BatchFault::BadNode { slot, .. },
            ) && slot == i)
            &&& there && complete(members, i) ==> (slot_of(members, i) matches Ok(
                VerdictView::Found(_),
            )) || slot_of(members, i) == Err::<VerdictView, BatchFault>(
                BatchFault::TooManyIssues { slot: i },
            )
            &&& !there && said == Some("FORBIDDEN"@) ==> slot_of(members, i) == Ok::<
                VerdictView,
                BatchFault,
            >(VerdictView::Blocked)
            &&& !there && said == Some("NOT_FOUND"@) ==> slot_of(members, i) == Ok::<
                VerdictView,
                BatchFault,
            >(VerdictView::Gone)
            &&& !there && (said matches Some(kind) && kind != "FORBIDDEN"@ && kind != "NOT_FOUND"@)
                ==> slot_of(members, i) == Ok::<VerdictView, BatchFault>(
                VerdictView::Failed(said->0),
            )
            &&& !there && said is None ==> (slot_of(members, i) matches Ok(VerdictView::Failed(_)))
        }),
{
    reveal_strlit("NOT_FOUND");
    reveal_strlit("FORBIDDEN");
    assert("NOT_FOUND"@[0] == 'N' && "FORBIDDEN"@[0] == 'F');
}

/// The error that decides is the last one that speaks of the name and says its kind.
pub proof fn law_the_last_error_of_a_name_decides(
    members: Map<Seq<char>, Json>,
    count: int,
    alias: Seq<char>,
)
    requires
        count >= 0,
    ensures
        error_type(members, count, alias) is None <==> forall|k: int|
            0 <= k < count ==> !#[trigger] error_of(members, k, alias),
        forall|k: int|
            0 <= k < count && #[trigger] error_of(members, k, alias) && (forall|j: int|
                k < j < count ==> !#[trigger] error_of(members, j, alias)) ==> error_type(
                members,
                count,
                alias,
            ) == text_at(members, "/errors/"@ + decimal(k as nat) + "/type"@),
    decreases count,
{
    if count > 0 {
        law_the_last_error_of_a_name_decides(members, count - 1, alias);
    }
}

/// An answer without a star count is an error, never a reading of zero stars.
pub proof fn law_no_star_count_is_no_reading(members: Map<Seq<char>, Json>, i: int)
    requires
        integer_at(members, slot_at(i) + "/stargazerCount"@) is None,
    ensures
        !(slot_of(members, i) matches Ok(verdict) && verdict is Found),
{
}

// ---------------------------------------------------------------- fixtures

/// A repo the way GitHub's REST API writes it, for a stub that stands in for GitHub.
pub fn repo_json(id: i64, full_name: &str, stars: i64, created_at: &str) -> (r: String)
    ensures
        r@ == "{\"id\":"@ + integer(id as int) + ",\"full_name\":\""@ + full_name@
            + "\",\"created_at\":\""@ + created_at@ + "\",\"stargazers_count\":"@ + integer(
            stars as int,
        ) + ",\"forks_count\":3,\"open_issues_count\":4,\"subscribers_count\":5,\"pushed_at\":\""@
            + created_at@ + "\",\"language\":\"Rust\"}"@,
{
    let mut out = "{\"id\":".to_owned();
    push_integer(&mut out, id as i128);
    out.append(",\"full_name\":\"");
    out.append(full_name);
    out.append("\",\"created_at\":\"");
    out.append(created_at);
    out.append("\",\"stargazers_count\":");
    push_integer(&mut out, stars as i128);
    out.append(
        ",\"forks_count\":3,\"open_issues_count\":4,\"subscribers_count\":5,\"pushed_at\":\"",
    );
    out.append(created_at);
    out.append("\",\"language\":\"Rust\"}");
    out
}

/// The GraphQL twin of [`repo_json`]: same repo, same derived counts (1 issue and 3 PRs are
/// REST's 4).
pub fn graphql_node(id: i64, full_name: &str, stars: i64, created_at: &str) -> (r: String)
    ensures
        r@ == "{\"databaseId\":"@ + integer(id as int) + ",\"nameWithOwner\":\""@ + full_name@
            + "\",\"createdAt\":\""@ + created_at@ + "\",\"pushedAt\":\""@ + created_at@
            + "\",\"stargazerCount\":"@ + integer(stars as int)
            + ",\"forkCount\":3,\"issues\":{\"totalCount\":1},\"pullRequests\":{\"totalCount\":3},\"watchers\":{\"totalCount\":5},\"primaryLanguage\":{\"name\":\"Rust\"}}"@,
{
    let mut out = "{\"databaseId\":".to_owned();
    push_integer(&mut out, id as i128);
    out.append(",\"nameWithOwner\":\"");
    out.append(full_name);
    out.append("\",\"createdAt\":\"");
    out.append(created_at);
    out.append("\",\"pushedAt\":\"");
    out.append(created_at);
    out.append("\",\"stargazerCount\":");
    push_integer(&mut out, stars as i128);
    out.append(
        ",\"forkCount\":3,\"issues\":{\"totalCount\":1},\"pullRequests\":{\"totalCount\":3},\"watchers\":{\"totalCount\":5},\"primaryLanguage\":{\"name\":\"Rust\"}}",
    );
    out
}

} // verus!
