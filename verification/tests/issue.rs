use std::collections::HashSet;

use keifu::gh::Output;
use keifu::interval_fetch::FetchEvent;
use keifu::issue::blocked::{
    blockers_in_lower, number_at_start, GqlBlockerNode, GqlIssueNode, GqlResponse, RawBlockedIssue, RawBlocker,
    BLOCKED_QUERY,
};
use keifu::issue::fetch::{
    blocked_args, owner_and_name, repository_args, should_start_detail, DETAIL_FIELDS, LIST_FIELDS,
};
use keifu::issue::parse::{Actor, GhComment, GhIssue, GhIssueDetail, GhLabel};
use keifu::issue::{
    blockers_in_body, compute_blocked_set, issue_matches, parse_blocked, parse_issue_detail, parse_issue_list,
    parse_label_list, parse_output, relative_between, relative_time, visible_issues, IssueDetail, IssueFetch,
    IssueFilter, IssueInfo, IssueLabel, IssueState, IssueViewFilter, Moment,
};
use serde_json::Value;

// ── decoding of the JSON that `gh` prints ────────────────────────────

fn decode(json: &str) -> Result<Value, String> {
    serde_json::from_str::<Value>(json).map_err(|e| e.to_string())
}

fn text(v: &Value, key: &str) -> String {
    opt_text(v, key).unwrap_or_default()
}

fn opt_text(v: &Value, key: &str) -> Option<String> {
    v.get(key).and_then(|t| t.as_str()).map(|t| t.to_string())
}

fn list<'a>(v: &'a Value, key: &str) -> Vec<&'a Value> {
    v.get(key).and_then(|l| l.as_array()).map(|l| l.iter().collect()).unwrap_or_default()
}

fn number(v: &Value) -> Result<u64, String> {
    v.get("number").and_then(|n| n.as_u64()).ok_or_else(|| "missing field `number`".to_string())
}

fn actor(v: &Value) -> Actor {
    Actor { login: text(v, "login") }
}

fn label(v: &Value) -> GhLabel {
    GhLabel { name: text(v, "name"), color: text(v, "color") }
}

fn author(v: &Value) -> Option<Actor> {
    v.get("author").filter(|a| !a.is_null()).map(actor)
}

fn array(v: &Value) -> Result<&Vec<Value>, String> {
    v.as_array().ok_or_else(|| "expected a sequence".to_string())
}

fn gh_issue(v: &Value) -> Result<GhIssue, String> {
    Ok(GhIssue {
        number: number(v)?,
        title: text(v, "title"),
        state: text(v, "state"),
        labels: list(v, "labels").into_iter().map(label).collect(),
        assignees: list(v, "assignees").into_iter().map(actor).collect(),
        author: author(v),
        updated_at: text(v, "updatedAt"),
        url: text(v, "url"),
    })
}

fn gh_detail(v: &Value) -> Result<GhIssueDetail, String> {
    if !v.is_object() {
        return Err("expected a map".to_string());
    }
    Ok(GhIssueDetail {
        number: number(v)?,
        title: text(v, "title"),
        state: text(v, "state"),
        state_reason: opt_text(v, "stateReason"),
        body: opt_text(v, "body"),
        author: author(v),
        created_at: text(v, "createdAt"),
        updated_at: text(v, "updatedAt"),
        labels: list(v, "labels").into_iter().map(label).collect(),
        assignees: list(v, "assignees").into_iter().map(actor).collect(),
        comments: list(v, "comments")
            .into_iter()
            .map(|c| GhComment { author: author(c), created_at: text(c, "createdAt"), body: opt_text(c, "body") })
            .collect(),
        url: text(v, "url"),
    })
}

fn read_list(json: &str) -> Result<Vec<IssueInfo>, String> {
    let records = decode(json).and_then(|v| array(&v)?.iter().map(gh_issue).collect());
    parse_issue_list(records)
}

fn read_detail(json: &str) -> Result<IssueDetail, String> {
    parse_issue_detail(decode(json).and_then(|v| gh_detail(&v)))
}

fn read_labels(json: &str) -> Result<Vec<IssueLabel>, String> {
    let records = decode(json).and_then(|v| Ok(array(&v)?.iter().map(label).collect()));
    parse_label_list(records)
}

fn gql_issue(v: &Value) -> Result<GqlIssueNode, String> {
    Ok(GqlIssueNode {
        number: number(v)?,
        body: opt_text(v, "body"),
        blocked_by: v
            .get("blockedBy")
            .map(|b| list(b, "nodes"))
            .unwrap_or_default()
            .into_iter()
            .map(|b| GqlBlockerNode { state: text(b, "state") })
            .collect(),
    })
}

fn gql_response(v: &Value) -> Result<GqlResponse, String> {
    let repository = v.get("data").and_then(|d| d.get("repository")).filter(|r| !r.is_null());
    let issues = match repository {
        None => None,
        Some(r) => {
            let nodes = r.get("issues").map(|i| list(i, "nodes")).unwrap_or_default();
            Some(nodes.into_iter().map(gql_issue).collect::<Result<Vec<GqlIssueNode>, String>>()?)
        }
    };
    Ok(GqlResponse { issues })
}

fn read_blocked(json: &str) -> Result<HashSet<u64>, String> {
    parse_blocked(decode(json).and_then(|v| gql_response(&v)))
}

fn moment(t: chrono::DateTime<chrono::Utc>) -> Moment {
    Moment { seconds: t.timestamp(), nanos: t.timestamp_subsec_nanos() }
}

fn relative(then: chrono::DateTime<chrono::Utc>, now: chrono::DateTime<chrono::Utc>) -> String {
    relative_between(moment(then), moment(now))
}

// ── issue list parsing ───────────────────────────────────────────

const LIST: &str = r#"[
    {"number":42,"title":"Bug: crash on open","state":"OPEN",
     "labels":[{"name":"bug","color":"d73a4a"},{"name":"p1","color":"000000"}],
     "assignees":[{"login":"alice"},{"login":"bob"}],
     "author":{"login":"carol"},"updatedAt":"2026-07-18T08:00:00Z",
     "url":"https://github.com/o/r/issues/42"},
    {"number":7,"title":"Docs typo","state":"CLOSED",
     "labels":[],"assignees":[],"author":{"login":"dave"},
     "updatedAt":"2026-07-01T00:00:00Z","url":"https://github.com/o/r/issues/7"}
]"#;

#[test]
fn parses_issue_list_with_labels_and_assignees() {
    let issues = read_list(LIST).unwrap();
    assert_eq!(issues.len(), 2);
    let first = &issues[0];
    assert_eq!(first.number, 42);
    assert_eq!(first.title, "Bug: crash on open");
    assert_eq!(first.state, IssueState::Open);
    assert_eq!(first.author, "carol");
    assert_eq!(
        first.labels,
        vec![
            IssueLabel { name: "bug".into(), color: "d73a4a".into() },
            IssueLabel { name: "p1".into(), color: "000000".into() },
        ]
    );
    assert_eq!(first.assignees, vec!["alice", "bob"]);
    assert_eq!(first.url, "https://github.com/o/r/issues/42");
    assert_eq!(issues[1].state, IssueState::Closed);
}

#[test]
fn issue_state_parses_case_insensitively() {
    // gh emits uppercase, but be tolerant of any casing.
    for (raw, want) in [
        ("OPEN", IssueState::Open),
        ("open", IssueState::Open),
        ("CLOSED", IssueState::Closed),
        ("closed", IssueState::Closed),
        ("Closed", IssueState::Closed),
    ] {
        let json = format!(r#"[{{"number":1,"state":"{raw}"}}]"#);
        assert_eq!(read_list(&json).unwrap()[0].state, want, "state {raw}");
    }
}

#[test]
fn unknown_state_defaults_to_open() {
    let json = r#"[{"number":1,"state":"WEIRD"}]"#;
    assert_eq!(read_list(json).unwrap()[0].state, IssueState::Open);
}

#[test]
fn empty_list_yields_empty_vec() {
    assert!(read_list("[]").unwrap().is_empty());
}

#[test]
fn malformed_json_is_error() {
    assert!(read_list("not json").is_err());
    assert!(read_list("").is_err());
    assert!(read_list("{}").is_err()); // object, not an array
}

#[test]
fn missing_optional_fields_degrade() {
    // Only `number` is required; everything else defaults.
    let issues = read_list(r#"[{"number":9}]"#).unwrap();
    let i = &issues[0];
    assert_eq!(i.number, 9);
    assert_eq!(i.title, "");
    assert_eq!(i.state, IssueState::Open);
    assert!(i.labels.is_empty());
    assert!(i.assignees.is_empty());
    // Missing author falls back to "ghost".
    assert_eq!(i.author, "ghost");
    assert_eq!(i.url, "");
}

#[test]
fn empty_assignee_logins_are_dropped() {
    let json = r#"[{"number":1,"assignees":[{"login":""},{"login":"real"}]}]"#;
    assert_eq!(read_list(json).unwrap()[0].assignees, vec!["real"]);
}

#[test]
fn unicode_title_and_author_round_trip() {
    let json = r#"[{"number":1,"title":"修复崩溃 🐛","author":{"login":"日本語"}}]"#;
    let i = &read_list(json).unwrap()[0];
    assert_eq!(i.title, "修复崩溃 🐛");
    assert_eq!(i.author, "日本語");
}

#[test]
fn large_list_parses() {
    let rows: Vec<String> = (0..1000)
        .map(|n| format!(r#"{{"number":{n},"title":"issue {n}","state":"OPEN"}}"#))
        .collect();
    let json = format!("[{}]", rows.join(","));
    let issues = read_list(&json).unwrap();
    assert_eq!(issues.len(), 1000);
    assert_eq!(issues[999].number, 999);
}

// ── issue detail parsing ─────────────────────────────────────────

const DETAIL: &str = r#"{
    "number":42,"title":"Bug","state":"CLOSED","stateReason":"COMPLETED",
    "body":"Steps to reproduce","author":{"login":"carol"},
    "createdAt":"2026-07-01T00:00:00Z","updatedAt":"2026-07-18T08:00:00Z",
    "labels":[{"name":"bug","color":"d73a4a"}],
    "assignees":[{"login":"alice"}],
    "comments":[
        {"author":{"login":"bob"},"createdAt":"2026-07-02T00:00:00Z","body":"confirmed"},
        {"author":{"login":"carol"},"createdAt":"2026-07-03T00:00:00Z","body":"fixed"}
    ],
    "url":"https://github.com/o/r/issues/42"
}"#;

#[test]
fn parses_issue_detail_with_comments() {
    let d = read_detail(DETAIL).unwrap();
    assert_eq!(d.number, 42);
    assert_eq!(d.state, IssueState::Closed);
    assert_eq!(d.state_reason.as_deref(), Some("COMPLETED"));
    assert_eq!(d.body, "Steps to reproduce");
    assert_eq!(d.author, "carol");
    assert_eq!(d.labels.len(), 1);
    assert_eq!(d.assignees, vec!["alice"]);
    assert_eq!(d.comments.len(), 2);
    assert_eq!(d.comments[0].author, "bob");
    assert_eq!(d.comments[0].body, "confirmed");
    assert_eq!(d.comments[1].created_at, "2026-07-03T00:00:00Z");
}

#[test]
fn open_issue_detail_has_no_state_reason() {
    // gh emits an empty string for an open issue; it should read as None.
    let json = r#"{"number":1,"state":"OPEN","stateReason":"","body":"x"}"#;
    let d = read_detail(json).unwrap();
    assert_eq!(d.state, IssueState::Open);
    assert_eq!(d.state_reason, None);
}

#[test]
fn null_body_and_missing_optionals_degrade() {
    let json = r#"{"number":5,"body":null,"stateReason":null}"#;
    let d = read_detail(json).unwrap();
    assert_eq!(d.number, 5);
    assert_eq!(d.body, "");
    assert_eq!(d.state_reason, None);
    assert_eq!(d.author, "ghost");
    assert!(d.comments.is_empty());
    assert!(d.labels.is_empty());
}

#[test]
fn detail_comment_missing_author_is_ghost() {
    let json = r#"{"number":1,"comments":[{"body":"anon","createdAt":"t"}]}"#;
    let d = read_detail(json).unwrap();
    assert_eq!(d.comments[0].author, "ghost");
    assert_eq!(d.comments[0].body, "anon");
}

#[test]
fn detail_unicode_body_round_trips() {
    let json = r#"{"number":1,"body":"日本語 body 🚀","comments":[]}"#;
    assert_eq!(read_detail(json).unwrap().body, "日本語 body 🚀");
}

#[test]
fn detail_malformed_json_is_error() {
    assert!(read_detail("not json").is_err());
    assert!(read_detail("").is_err());
    assert!(read_detail("[]").is_err()); // array, not an object
}

#[test]
fn detail_large_body_parses() {
    let big = "x".repeat(200_000);
    let json = format!(r#"{{"number":1,"body":"{big}"}}"#);
    assert_eq!(read_detail(&json).unwrap().body.len(), 200_000);
}

// ── label list parsing ───────────────────────────────────────────

#[test]
fn parses_label_list() {
    let json = r#"[{"name":"bug","color":"d73a4a"},{"name":"enhancement","color":"a2eeef"}]"#;
    let labels = read_labels(json).unwrap();
    assert_eq!(
        labels,
        vec![
            IssueLabel { name: "bug".into(), color: "d73a4a".into() },
            IssueLabel { name: "enhancement".into(), color: "a2eeef".into() },
        ]
    );
}

#[test]
fn label_list_empty_and_malformed() {
    assert!(read_labels("[]").unwrap().is_empty());
    assert!(read_labels("nope").is_err());
}

// ── filter cycling ───────────────────────────────────────────────

// ── detail-fetch guard ───────────────────────────────────────────

#[test]
fn start_detail_guard_starts_second_number_while_first_in_flight() {
    // Opening #7 while #42's fetch is in flight
    // must start #7's fetch, not silently drop it (leaving the popup stuck
    // Loading forever).
    assert!(
        should_start_detail(false, Some(42), 7),
        "a fetch for a different number replaces the in-flight one"
    );
    // Same number already in flight → don't restart.
    assert!(!should_start_detail(false, Some(7), 7));
    // Already cached → never fetch, regardless of what's pending.
    assert!(!should_start_detail(true, None, 7));
    assert!(!should_start_detail(true, Some(42), 7));
    // Nothing cached, nothing pending → fetch.
    assert!(should_start_detail(false, None, 7));
}

#[test]
fn filter_cycles_and_maps_to_args() {
    assert_eq!(IssueFilter::Open.next(), IssueFilter::Closed);
    assert_eq!(IssueFilter::Closed.next(), IssueFilter::All);
    assert_eq!(IssueFilter::All.next(), IssueFilter::Open);
    assert_eq!(IssueFilter::Open.as_arg(), "open");
    assert_eq!(IssueFilter::Closed.as_arg(), "closed");
    assert_eq!(IssueFilter::All.as_arg(), "all");
}

// ── client-side view filter ──────────────────────────────────────

fn issue_with(number: u64, labels: &[&str]) -> IssueInfo {
    IssueInfo {
        number,
        title: format!("issue {number}"),
        state: IssueState::Open,
        labels: labels
            .iter()
            .map(|n| IssueLabel { name: (*n).to_string(), color: String::new() })
            .collect(),
        assignees: vec![],
        author: "ghost".into(),
        updated_at: String::new(),
        url: String::new(),
    }
}

#[test]
fn empty_view_filter_passes_everything() {
    let f = IssueViewFilter::default();
    assert!(!f.is_active());
    let i = issue_with(1, &["bug"]);
    assert!(issue_matches(&i, &f, false));
    assert!(issue_matches(&i, &f, true)); // blocked, but no unblocked filter
}

#[test]
fn label_filter_requires_at_least_one_selected_label() {
    let f = IssueViewFilter { labels: vec!["bug".into(), "p1".into()], unblocked_only: false };
    assert!(f.is_active());
    assert!(issue_matches(&issue_with(1, &["bug"]), &f, false));
    assert!(issue_matches(&issue_with(2, &["p1", "docs"]), &f, false));
    assert!(!issue_matches(&issue_with(3, &["docs"]), &f, false));
    assert!(!issue_matches(&issue_with(4, &[]), &f, false));
}

#[test]
fn unblocked_only_hides_blocked_issues() {
    let f = IssueViewFilter { labels: vec![], unblocked_only: true };
    assert!(issue_matches(&issue_with(1, &[]), &f, false));
    assert!(!issue_matches(&issue_with(2, &[]), &f, true));
}

#[test]
fn label_and_unblocked_filters_compose() {
    let f = IssueViewFilter { labels: vec!["bug".into()], unblocked_only: true };
    // has label + unblocked → visible
    assert!(issue_matches(&issue_with(1, &["bug"]), &f, false));
    // has label but blocked → hidden
    assert!(!issue_matches(&issue_with(2, &["bug"]), &f, true));
    // unblocked but wrong label → hidden
    assert!(!issue_matches(&issue_with(3, &["docs"]), &f, false));
}

#[test]
fn visible_issues_returns_passing_indices_in_order() {
    let issues = vec![
        issue_with(10, &["bug"]),
        issue_with(20, &["docs"]),
        issue_with(30, &["bug", "p1"]),
    ];
    let f = IssueViewFilter { labels: vec!["bug".into()], unblocked_only: true };
    let mut blocked = HashSet::new();
    blocked.insert(30); // #30 blocked → dropped despite the label
    assert_eq!(visible_issues(&issues, &f, &blocked), vec![0]);
    // No filter → all indices.
    assert_eq!(
        visible_issues(&issues, &IssueViewFilter::default(), &HashSet::new()),
        vec![0, 1, 2]
    );
}

// ── blocked-by body parsing ──────────────────────────────────────

#[test]
fn blockers_in_body_matches_phrases_and_tasklists() {
    assert_eq!(blockers_in_body("Blocked by #42"), vec![42]);
    assert_eq!(blockers_in_body("this Depends On #7 to land"), vec![7]);
    assert_eq!(
        blockers_in_body("- [ ] #3\n- [x] #4\n* [ ] #5"),
        vec![3, 5]
    );
    // Case-insensitive + de-duplicated.
    assert_eq!(blockers_in_body("BLOCKED BY #9 and blocked by #9"), vec![9]);
}

#[test]
fn blockers_in_body_ignores_cross_repo_and_malformed() {
    // Cross-repo owner/repo#N is not a bare #N.
    assert!(blockers_in_body("blocked by octo/other#5").is_empty());
    // No number after the phrase.
    assert!(blockers_in_body("blocked by the weather").is_empty());
    // Empty / prose without refs.
    assert!(blockers_in_body("").is_empty());
    assert!(blockers_in_body("just a normal description #notanumber").is_empty());
}

fn raw(number: u64, body: &str, native: &[(u64, bool)]) -> RawBlockedIssue {
    RawBlockedIssue {
        number,
        body: body.to_string(),
        native: native.iter().map(|(_, open)| RawBlocker { open: *open }).collect(),
    }
}

#[test]
fn compute_blocked_set_native_open_blocker_blocks() {
    let issues = vec![
        raw(1, "", &[(2, true)]),   // blocked by open #2
        raw(2, "", &[]),
        raw(3, "", &[(2, false)]),  // blocker closed → not blocked
    ];
    let blocked = compute_blocked_set(&issues);
    assert!(blocked.contains(&1));
    assert!(!blocked.contains(&2));
    assert!(!blocked.contains(&3));
}

#[test]
fn compute_blocked_set_body_refs_only_count_open_issues() {
    let issues = vec![
        raw(1, "blocked by #2", &[]), // #2 is open (present) → blocked
        raw(2, "", &[]),
        raw(3, "depends on #99", &[]), // #99 absent (closed/other) → not blocked
    ];
    let blocked = compute_blocked_set(&issues);
    assert!(blocked.contains(&1));
    assert!(!blocked.contains(&3));
}

#[test]
fn compute_blocked_set_ignores_self_reference() {
    let issues = vec![raw(5, "blocked by #5", &[])];
    assert!(compute_blocked_set(&issues).is_empty());
}

#[test]
fn parse_blocked_reads_graphql_and_derives_set() {
    let json = r#"{"data":{"repository":{"issues":{"nodes":[
        {"number":1,"body":"","blockedBy":{"nodes":[{"number":2,"state":"OPEN"}]}},
        {"number":2,"body":"","blockedBy":{"nodes":[]}},
        {"number":3,"body":"blocked by #2","blockedBy":{"nodes":[]}}
    ]}}}}"#;
    let blocked = read_blocked(json).unwrap();
    assert!(blocked.contains(&1));
    assert!(blocked.contains(&3));
    assert!(!blocked.contains(&2));
}

#[test]
fn parse_blocked_missing_repository_is_error() {
    // A GHES without the blockedBy field returns errors + null data.
    assert!(read_blocked(r#"{"data":{"repository":null}}"#).is_err());
    assert!(read_blocked("not json").is_err());
}

// ── relative time ────────────────────────────────────────────────

#[test]
fn relative_between_buckets() {
    let now = chrono::Utc::now();
    let minutes = |n: i64| chrono::Duration::minutes(n);
    assert_eq!(relative(now, now), "just now");
    assert_eq!(relative(now - chrono::Duration::seconds(30), now), "just now");
    assert_eq!(relative(now - minutes(5), now), "5m");
    assert_eq!(relative(now - chrono::Duration::hours(3), now), "3h");
    assert_eq!(relative(now - chrono::Duration::days(2), now), "2d");
    assert_eq!(relative(now - chrono::Duration::days(10), now), "1w");
    assert_eq!(relative(now - chrono::Duration::days(60), now), "2mo");
    assert_eq!(relative(now - chrono::Duration::days(400), now), "1y");
    // Future timestamps clamp to "just now" rather than going negative.
    assert_eq!(relative(now + chrono::Duration::hours(1), now), "just now");
}

#[test]
fn relative_time_falls_back_to_date_on_bad_input() {
    assert!(!relative_time("2026-07-18T08:00:00Z").is_empty());
    assert_eq!(relative_time("garbage"), "garbage");
    assert_eq!(relative_time("2020-01-02Tbad"), "2020-01-02");
}

#[test]
fn relative_time_reads_the_offset() {
    let then = chrono::Utc::now() - chrono::Duration::hours(5);
    let shifted = then.with_timezone(&chrono::FixedOffset::east_opt(7200).unwrap());
    assert_eq!(relative_time(&shifted.to_rfc3339()), "5h");
    assert_eq!(relative_time(&then.to_rfc3339()), "5h");
}

#[test]
fn relative_between_boundaries() {
    let at = |seconds: i64| Moment { seconds, nanos: 0 };
    let from = |seconds: i64, nanos: u32| Moment { seconds, nanos };
    assert_eq!(relative_between(at(0), at(59)), "just now");
    assert_eq!(relative_between(at(0), at(60)), "1m");
    assert_eq!(relative_between(from(0, 1), at(60)), "just now");
    assert_eq!(relative_between(at(0), at(3599)), "59m");
    assert_eq!(relative_between(at(0), at(3600)), "1h");
    assert_eq!(relative_between(at(0), at(86_399)), "23h");
    assert_eq!(relative_between(at(0), at(7 * 86_400 - 1)), "6d");
    assert_eq!(relative_between(at(0), at(7 * 86_400)), "1w");
    assert_eq!(relative_between(at(0), at(29 * 86_400)), "4w");
    assert_eq!(relative_between(at(0), at(30 * 86_400)), "1mo");
    assert_eq!(relative_between(at(0), at(364 * 86_400)), "12mo");
    assert_eq!(relative_between(at(0), at(730 * 86_400)), "2y");
}

#[test]
fn references_need_a_bare_number() {
    assert_eq!(blockers_in_body("blocked by\t #12, depends on #13"), vec![12, 13]);
    assert_eq!(blockers_in_body("depends on #2 but blocked by #1"), vec![1, 2]);
    assert_eq!(blockers_in_body("blocked by #18446744073709551616"), Vec::<u64>::new());
    assert_eq!(blockers_in_body("  [ ] #8\n-[ ] #9"), vec![8]);
    assert_eq!(blockers_in_lower("BLOCKED BY #4"), Vec::<u64>::new());
    let digits: Vec<char> = "0042x".chars().collect();
    assert_eq!(number_at_start(&digits), Some(42));
    assert_eq!(number_at_start(&[]), None);
}

#[test]
fn lower_casing_follows_unicode() {
    // The Kelvin sign lowers to an ordinary k.
    assert_eq!(blockers_in_body("bloc\u{212A}ed by #6"), vec![6]);
}

#[test]
fn blockers_are_named_once() {
    assert_eq!(blockers_in_body("blocked by #1\ndepends on #1\n- [ ] #1"), vec![1]);
}

#[test]
fn closed_states_are_read_in_any_case() {
    let node = |state: &str| GqlIssueNode {
        number: 1,
        body: None,
        blocked_by: vec![GqlBlockerNode { state: state.to_string() }],
    };
    let blocked = |state: &str| parse_blocked(Ok(GqlResponse { issues: Some(vec![node(state)]) })).unwrap();
    assert!(blocked("CLOSED").is_empty());
    assert!(blocked("cLosed").is_empty());
    assert!(blocked("OPEN").contains(&1));
    assert!(blocked("").contains(&1));
    assert_eq!(
        parse_blocked(Ok(GqlResponse { issues: None })),
        Err("no repository in graphql response".to_string())
    );
}

#[test]
fn outputs_are_parsed_or_reported() {
    let out = |success: bool, stdout: &str, stderr: &str| {
        Ok(Output { success, stdout: stdout.to_string(), stderr: stderr.to_string() })
    };
    let length = |s: &str| -> Result<usize, String> { Ok(s.len()) };
    assert_eq!(parse_output(out(true, "four", ""), length, "gh x"), Ok(4));
    assert_eq!(parse_output(out(false, "four", "bad"), length, "gh x"), Err("bad".to_string()));
    assert_eq!(parse_output(out(false, "four", ""), length, "gh x"), Err("gh x failed".to_string()));
    assert_eq!(parse_output(Err("none".to_string()), length, "gh x"), Err("none".to_string()));
}

#[test]
fn states_and_filters_have_labels() {
    assert_eq!(IssueState::Open.label(), "open");
    assert_eq!(IssueState::Closed.label(), "closed");
    assert_eq!(IssueFilter::Open.label(), "Open");
    assert_eq!(IssueFilter::All.label(), "All");
}

#[test]
fn the_list_is_fetched_anew_each_time() {
    let mut f = IssueFetch::new();
    assert!(f.poll_list(FetchEvent::Died).is_none());
    assert_eq!(
        f.start_list(IssueFilter::Closed),
        vec!["issue", "list", "--state", "closed", "--limit", "100", "--json", LIST_FIELDS]
    );
    assert!(f.poll_list(FetchEvent::Pending).is_none());
    assert_eq!(f.poll_list(FetchEvent::Done(Err("x".to_string()))), Some(Err("x".to_string())));
    f.start_list(IssueFilter::Open);
    assert_eq!(f.poll_list(FetchEvent::Died), Some(Err("issue list worker exited".to_string())));
    assert!(f.poll_list(FetchEvent::Died).is_none());
}

#[test]
fn details_are_kept_until_dropped() {
    let mut f = IssueFetch::default();
    assert_eq!(f.start_detail(42), Some(vec!["issue", "view", "42", "--json", DETAIL_FIELDS].into_iter().map(|s| s.to_string()).collect()));
    assert!(f.start_detail(42).is_none(), "already in flight");
    assert!(f.start_detail(7).is_some(), "another issue replaces it");
    let d = read_detail(r#"{"number":7,"title":"seven"}"#).unwrap();
    assert_eq!(f.poll_detail(FetchEvent::Done(Ok(d.clone()))), Some((7, Ok(d.clone()))));
    assert_eq!(f.cached_detail(7), Some(&d));
    assert!(f.cached_detail(42).is_none());
    assert!(f.start_detail(7).is_none(), "kept");
    f.invalidate_detail(7);
    assert!(f.start_detail(7).is_some());
    assert_eq!(f.poll_detail(FetchEvent::Died), Some((7, Err("issue detail worker exited".to_string()))));
    assert!(f.start_detail(7).is_some(), "a failed fetch can be repeated");
    assert_eq!(f.poll_detail(FetchEvent::Done(Err("x".to_string()))), Some((7, Err("x".to_string()))));
    assert!(f.poll_detail(FetchEvent::Died).is_none());
}

#[test]
fn labels_are_fetched_once() {
    let mut f = IssueFetch::new();
    assert!(f.cached_labels().is_none());
    assert_eq!(
        f.start_labels().unwrap(),
        vec!["label", "list", "--json", "name,color", "--limit", "100"]
    );
    assert!(f.start_labels().is_none());
    assert_eq!(f.poll_labels(FetchEvent::Died), Some(Err("label list worker exited".to_string())));
    assert!(f.start_labels().is_some());
    let labels = read_labels(r#"[{"name":"bug","color":"d73a4a"}]"#).unwrap();
    assert!(matches!(f.poll_labels(FetchEvent::Done(Ok(labels))), Some(Ok(_))));
    assert_eq!(f.cached_labels().unwrap()[0].name, "bug");
    assert!(f.start_labels().is_none());
}

#[test]
fn blocked_issues_are_kept_until_dropped() {
    let mut f = IssueFetch::new();
    assert!(f.start_blocked());
    assert!(!f.start_blocked());
    assert_eq!(f.poll_blocked(FetchEvent::Died), Some(Err("blocked-by worker exited".to_string())));
    assert!(f.cached_blocked().is_none(), "not known");
    assert!(f.start_blocked());
    let set: HashSet<u64> = [3, 5, 8].into_iter().collect();
    assert_eq!(f.poll_blocked(FetchEvent::Done(Ok(set.clone()))), Some(Ok(set.clone())));
    assert_eq!(f.cached_blocked(), Some(&set));
    assert!(!f.start_blocked());
    f.invalidate_blocked();
    assert!(f.cached_blocked().is_none());
    assert!(f.start_blocked());
}

#[test]
fn the_repository_is_resolved_first() {
    let out = |success: bool, stdout: &str, stderr: &str| {
        Ok(Output { success, stdout: stdout.to_string(), stderr: stderr.to_string() })
    };
    assert_eq!(repository_args(), vec!["repo", "view", "--json", "nameWithOwner", "-q", ".nameWithOwner"]);
    assert_eq!(owner_and_name(out(true, " xnmp/keifu\n", "")), Ok(("xnmp".to_string(), "keifu".to_string())));
    assert_eq!(owner_and_name(out(true, "a/b/c", "")), Ok(("a".to_string(), "b/c".to_string())));
    assert_eq!(owner_and_name(out(true, "keifu", "")), Err("could not resolve owner/name".to_string()));
    assert_eq!(owner_and_name(out(false, "", "")), Err("gh repo view failed".to_string()));
    assert_eq!(owner_and_name(out(false, "", "no auth")), Err("no auth".to_string()));
    assert_eq!(owner_and_name(Err("no gh".to_string())), Err("no gh".to_string()));
    assert_eq!(
        blocked_args("xnmp", "keifu"),
        vec![
            "api".to_string(),
            "graphql".to_string(),
            "-f".to_string(),
            format!("query={BLOCKED_QUERY}"),
            "-f".to_string(),
            "owner=xnmp".to_string(),
            "-f".to_string(),
            "name=keifu".to_string(),
        ]
    );
}

#[test]
fn filters_stand_in_the_order_of_their_tabs() {
    assert_eq!(IssueFilter::ALL, [IssueFilter::Open, IssueFilter::Closed, IssueFilter::All]);
    for pair in IssueFilter::ALL.windows(2) {
        assert_eq!(pair[0].next(), pair[1]);
    }
}

#[test]
fn letter_case_does_not_matter_for_blockers() {
    for body in ["Blocked by #4 and DEPENDS on #5", "- [ ] #7 \u{39f}\u{3a3} blocked BY #8", "\u{3a3}A Depends On #9"] {
        let found = blockers_in_body(body);
        assert!(!found.is_empty());
        assert_eq!(blockers_in_body(&body.to_ascii_uppercase()), found);
        assert_eq!(blockers_in_body(&body.to_ascii_lowercase()), found);
    }
}
