//! The guard: assessment, filtering, scrubbing and projection of issues.

use jirakeep::guard::{Guard, MAX_ASSESS_KEYS};
use jirakeep::json::Json;
use jirakeep::keymap::KeyMap;
use jirakeep::keyset::KeySet;
use jirakeep::meta::IssueMeta;
use jirakeep::policy::{Access, Capabilities, Capability, Policy};
use jirakeep::scrub::looks_like_issue_key;
use jirakeep::search::SearchWindow;

const TOKEN: &str = "GUARDTESTSECRET999";
const NOW: i64 = 1_800_000_000;

fn json(text: &str) -> Json {
    Json::parse(text).expect("json")
}

fn at<'a>(value: &'a Json, path: &str) -> &'a Json {
    let mut here = value;
    for name in path.split('/') {
        here = match here {
            Json::Array(items) => &items[name.parse::<usize>().expect("index")],
            other => other.get(name).unwrap_or(&Json::Null),
        };
    }
    here
}

fn text<'a>(value: &'a Json, path: &str) -> &'a str {
    at(value, path).as_str().expect("text")
}

fn count(value: &Json, path: &str) -> usize {
    at(value, path).as_array().expect("array").len()
}

fn fields(value: &Json) -> &Json {
    value.get("fields").expect("fields")
}

/// The text of a document.
fn render(value: &Json) -> String {
    match value {
        Json::Null => "null".to_owned(),
        Json::Bool(b) => b.to_string(),
        Json::Unsigned(n) => n.to_string(),
        Json::Negative(n) => n.to_string(),
        Json::Decimal(s) => s.clone(),
        Json::Text(s) => format!("{s:?}"),
        Json::Array(items) => {
            let items: Vec<String> = items.iter().map(render).collect();
            format!("[{}]", items.join(","))
        }
        Json::Object(members) => {
            let members: Vec<String> = members
                .entries
                .iter()
                .map(|(name, value)| format!("{name:?}:{}", render(value)))
                .collect();
            format!("{{{}}}", members.join(","))
        }
    }
}

fn owned(list: &[&str]) -> Vec<String> {
    list.iter().map(|s| s.to_string()).collect()
}

fn set(list: &[&str]) -> KeySet {
    let mut keys = KeySet::new();
    for key in list {
        keys.insert(key);
    }
    keys
}

fn granted(caps: &[Capability]) -> Access {
    Access::Granted { caps: Capabilities::of(&caps.to_vec(), false), rule: "r".to_owned() }
}

fn guard(toml: &str) -> Guard {
    Guard::new(Policy::from_toml_str(toml).expect("policy"))
}

fn issue_text(key: &str, project: &str, security: &str, more: &str) -> String {
    format!(
        r#"{{"key": "{key}", "id": "1", "fields": {{
            "summary": "s",
            "project": {{"key": "{project}"}},
            "status": {{"name": "Open"}},
            "priority": {{"name": "Medium"}},
            "issuetype": {{"name": "Bug"}},
            "labels": [],
            "components": [],
            "created": "2020-01-01T00:00:00.000+0000",
            "reporter": {{"accountId": "u1"}},
            "security": {security}{more}
        }}}}"#
    )
}

fn issue(key: &str, project: &str, security: Option<&str>) -> Json {
    let security = match security {
        Some(name) => format!(r#"{{"name": "{name}"}}"#),
        None => "null".to_owned(),
    };
    json(&issue_text(key, project, &security, ""))
}

/// Assesses keys against a site.
fn assess(g: &Guard, keys: &[&str], site: &dyn Fn(&str) -> Option<Json>) -> KeyMap<(Access, Json)> {
    let keys = owned(keys);
    let wanted = Guard::keys_to_fetch(&keys);
    let replies: Vec<Option<Json>> = wanted.iter().map(|key| site(key)).collect();
    g.assess(&keys, &replies, None, NOW)
}

/// Searches a site whose search returns `envelope`.
fn search(g: &Guard, envelope: &Json, max: u32, site: &dyn Fn(&str) -> Option<Json>) -> SearchWindow {
    let scan = g.search_filtered(envelope, max, None, NOW);
    let wanted = Guard::keys_to_fetch(scan.candidates.keys());
    let replies: Vec<Option<Json>> = wanted.iter().map(|key| site(key)).collect();
    let extra = g.disclosable(&scan.candidates, &replies, None, NOW);
    g.search_window(scan, &extra)
}

fn entry<'a>(map: &'a KeyMap<(Access, Json)>, key: &str) -> &'a (Access, Json) {
    map.get(key).expect("assessed")
}

const HIDE_SEC: &str = r#"
default_action = "allow"
[[rule]]
name = "hide-sec"
action = "deny"
[rule.match]
projects = ["SEC"]
"#;

#[test]
fn denial_is_uniform() {
    assert_eq!(
        Guard::denial("SEC-1"),
        "Issue SEC-1 is not accessible through this server"
    );
}

#[test]
fn denial_text_has_no_token() {
    let msg = Guard::denial("SEC-1");
    assert!(!msg.contains(TOKEN));
    assert_eq!(msg, "Issue SEC-1 is not accessible through this server");
}

#[test]
fn summary_view_redacts() {
    let issue = json(
        r#"{"key": "P-1", "id": "1", "fields": {
            "summary": "s",
            "status": {"name": "Open"},
            "description": "secret",
            "assignee": {"displayName": "Alice"}
        }}"#,
    );
    let v = Guard::summary_view(&issue);
    assert!(matches!(v.get("_redacted"), Some(Json::Bool(true))));
    assert!(fields(&v).get("description").is_none());
    assert!(fields(&v).get("assignee").is_none());
    assert_eq!(text(&v, "fields/summary"), "s");
    assert_eq!(text(&v, "key"), "P-1");
}

#[test]
fn filter_comments_restricted() {
    let mut p = Policy::default();
    p.global.allow_restricted_comments = false;
    let g = Guard::new(p);
    let comments = vec![
        json(r#"{"id": "1", "body": "public"}"#),
        json(
            r#"{"id": "2", "body": "secret",
                "visibility": {"type": "role", "value": "Administrators"}}"#,
        ),
    ];
    let out = g.filter_comments(&comments, true);
    assert_eq!(out.len(), 1);
    assert_eq!(text(&out[0], "id"), "1");
}

#[test]
fn restricted_comments_take_two_opt_ins() {
    let mut p = Policy::default();
    p.global.allow_restricted_comments = true;
    let g = Guard::new(p);
    let comments = vec![json(r#"{"id": "2", "visibility": {"type": "role"}}"#)];
    assert_eq!(g.filter_comments(&comments, true).len(), 1);
    assert_eq!(g.filter_comments(&comments, false).len(), 0);
    assert!(Guard::comment_is_restricted(&comments[0]));
    assert!(!Guard::comment_is_restricted(&json(r#"{"visibility": null}"#)));
}

#[test]
fn attachment_cap_fails_closed_on_unknown_size() {
    let mut p = Policy::default();
    p.global.max_attachment_bytes = 1024;
    let g = Guard::new(p);
    assert_eq!(g.attachment_cap(), Some(1024));
    assert!(g.attachment_within_cap(Some(1024)));
    assert!(!g.attachment_within_cap(Some(1025)));
    // A missing/unreadable size must not pass a non-zero cap.
    assert!(!g.attachment_within_cap(None));
}

#[test]
fn attachment_cap_zero_means_unlimited() {
    let mut p = Policy::default();
    p.global.max_attachment_bytes = 0;
    let g = Guard::new(p);
    assert_eq!(g.attachment_cap(), None);
    assert!(g.attachment_within_cap(Some(u64::MAX)));
    assert!(g.attachment_within_cap(None));
}

#[test]
fn uploads_are_checked() {
    let mut p = Policy::default();
    p.global.max_attachment_bytes = 2;
    let g = Guard::new(p);
    assert_eq!(g.check_upload(Some(vec![1, 2])).unwrap(), vec![1, 2]);
    assert_eq!(
        g.check_upload(Some(vec![1, 2, 3])).unwrap_err(),
        "attachment exceeds max_attachment_bytes"
    );
    assert_eq!(g.check_upload(None).unwrap_err(), "content_base64 is not valid base64");
}

#[test]
fn filter_issue_list_denies() {
    let p = Policy::from_toml_str(
        r#"
default_action = "allow"
[[rule]]
name = "hide"
action = "deny"
[rule.match]
projects = ["SEC"]
"#,
    )
    .unwrap();
    let g = Guard::new(p);
    let issues = vec![
        json(
            r#"{"key":"SEC-1","fields":{"summary":"a","project":{"key":"SEC"},
                "status":{"name":"Open"},"created":"2020-01-01T00:00:00.000+0000"}}"#,
        ),
        json(
            r#"{"key":"OPEN-1","fields":{"summary":"b","project":{"key":"OPEN"},
                "status":{"name":"Open"},"created":"2020-01-01T00:00:00.000+0000"}}"#,
        ),
    ];
    let (vis, drop) = g.filter_issue_list(&issues, None, NOW);
    assert_eq!(vis.len(), 1);
    assert_eq!(text(&vis[0], "key"), "OPEN-1");
    assert_eq!(drop, vec!["SEC-1".to_string()]);
}

#[test]
fn linked_keys_and_scrub_links() {
    let issue = json(
        r#"{"key": "OPEN-1", "fields": {
            "issuelinks": [
                {"outwardIssue": {"key": "OPEN-2"}},
                {"inwardIssue": {"key": "SEC-9"}}
            ],
            "parent": {"key": "SEC-1"},
            "subtasks": [{"key": "OPEN-3"}, {"key": "SEC-2"}]
        }}"#,
    );
    let keys = Guard::linked_keys(&issue, &Vec::new());
    assert!(keys.contains("SEC-9"));
    assert!(keys.contains("OPEN-2"));
    let allow = set(&["OPEN-1", "OPEN-2", "OPEN-3"]);
    let (scrubbed, removed) = Guard::scrub_links(&issue, &allow, &Vec::new());
    assert!(removed.iter().any(|k| k == "SEC-9"));
    assert!(removed.iter().any(|k| k == "SEC-1"));
    assert!(removed.iter().any(|k| k == "SEC-2"));
    assert_eq!(count(&scrubbed, "fields/issuelinks"), 1);
    assert!(fields(&scrubbed).get("parent").is_none());
    assert_eq!(count(&scrubbed, "fields/subtasks"), 1);
    // Scrubbing once is enough.
    let (again, removed) = Guard::scrub_links(&scrubbed, &allow, &Vec::new());
    assert_eq!(render(&again), render(&scrubbed));
    assert!(removed.is_empty());
}

#[test]
fn scrubbing_goes_by_key_whatever_its_case() {
    let issue = json(r#"{"key": "A-1", "fields": {"parent": {"key": "open-2"}}}"#);
    let (scrubbed, removed) = Guard::scrub_links(&issue, &set(&["OPEN-2"]), &Vec::new());
    assert_eq!(text(&scrubbed, "fields/parent/key"), "open-2");
    assert!(removed.is_empty());
}

#[test]
fn declared_link_custom_fields_join_candidates_and_scrub() {
    let declared = owned(&["customfield_10014", "customfield_10500"]);
    let issue = json(
        r#"{"key": "PUB-7", "fields": {
            "customfield_10014": "SEC-100",
            "customfield_10500": "PUB-8",
            "customfield_20000": "SEC-77"
        }}"#,
    );
    let keys = Guard::linked_keys(&issue, &declared);
    assert!(keys.contains("SEC-100"));
    assert!(keys.contains("PUB-8"));
    // Undeclared: never scanned, never touched.
    assert!(!keys.contains("SEC-77"));
    let allow = set(&["PUB-7", "PUB-8"]);
    let (scrubbed, removed) = Guard::scrub_links(&issue, &allow, &declared);
    assert!(matches!(fields(&scrubbed).get("customfield_10014"), Some(Json::Null)));
    assert_eq!(text(&scrubbed, "fields/customfield_10500"), "PUB-8");
    assert_eq!(text(&scrubbed, "fields/customfield_20000"), "SEC-77");
    assert_eq!(removed, vec!["SEC-100".to_string()]);
}

#[test]
fn declared_link_custom_field_unreadable_value_nulls() {
    // A declared link field carrying anything but a disclosable
    // issue-key string cannot be assessed: null it.
    let declared = owned(&["customfield_10014"]);
    let allow = set(&["PUB-7"]);
    for odd in [r#"{"key": "SEC-100"}"#, r#""not a key""#, "7"] {
        let issue = json(&format!(
            r#"{{"key": "PUB-7", "fields": {{"customfield_10014": {odd}}}}}"#
        ));
        assert!(Guard::linked_keys(&issue, &declared).is_empty());
        let (scrubbed, removed) = Guard::scrub_links(&issue, &allow, &declared);
        assert!(matches!(fields(&scrubbed).get("customfield_10014"), Some(Json::Null)));
        assert!(removed.is_empty());
    }
    // Null stays null; an absent field stays absent.
    let issue = json(r#"{"key": "PUB-7", "fields": {"customfield_10014": null}}"#);
    let (scrubbed, removed) = Guard::scrub_links(&issue, &allow, &declared);
    assert!(matches!(fields(&scrubbed).get("customfield_10014"), Some(Json::Null)));
    assert!(removed.is_empty());
    let issue = json(r#"{"key": "PUB-7", "fields": {}}"#);
    let (scrubbed, _) = Guard::scrub_links(&issue, &allow, &declared);
    assert!(fields(&scrubbed).get("customfield_10014").is_none());
}

fn gated_issue() -> Json {
    json(
        r#"{"key": "HR-3", "fields": {
            "summary": "s",
            "attachment": [{"filename": "severance-agreement-smith.pdf"}],
            "comment": {
                "comments": [
                    {"id": "1", "body": "public"},
                    {"id": "2", "body": "secret",
                     "visibility": {"type": "role", "value": "HR"}}
                ],
                "maxResults": 2,
                "total": 2,
                "startAt": 0
            },
            "worklog": {"worklogs": [{"comment": "billing note"}], "total": 1},
            "watches": {"watchCount": 3, "isWatching": false},
            "votes": {"votes": 1, "hasVoted": false}
        }}"#,
    )
}

#[test]
fn scrub_gated_fields_read_only_strips_gated_families() {
    let read_only = granted(&[Capability::Read]);
    let out = Guard::scrub_gated_fields(&read_only, gated_issue());
    assert!(fields(&out).get("attachment").is_none());
    assert!(fields(&out).get("comment").is_none());
    assert!(fields(&out).get("worklog").is_none());
    // Count-only families stay under Read.
    assert_eq!(at(&out, "fields/watches/watchCount").as_u64(), Some(3));
    assert_eq!(at(&out, "fields/votes/votes").as_u64(), Some(1));
    assert_eq!(text(&out, "fields/summary"), "s");
}

#[test]
fn scrub_gated_fields_comments_grant_filters_restricted() {
    let with_comments = granted(&[Capability::Read, Capability::Comments]);
    let out = Guard::scrub_gated_fields(&with_comments, gated_issue());
    let comments = at(&out, "fields/comment/comments").as_array().unwrap();
    assert_eq!(comments.len(), 1, "restricted comment must be removed");
    assert_eq!(text(&comments[0], "id"), "1");
    // Silent removal: total tracks the served list.
    assert_eq!(at(&out, "fields/comment/total").as_u64(), Some(1));
    assert!(fields(&out).get("attachment").is_none());
    assert!(fields(&out).get("worklog").is_none());
}

#[test]
fn scrub_gated_fields_attachments_grant_keeps_attachment() {
    let with_attachments = granted(&[Capability::Read, Capability::Attachments]);
    let out = Guard::scrub_gated_fields(&with_attachments, gated_issue());
    assert!(fields(&out).get("attachment").is_some());
    assert!(fields(&out).get("comment").is_none());
    assert!(fields(&out).get("worklog").is_none());
}

#[test]
fn scrub_gated_fields_denied_strips_everything_gated() {
    let denied = Access::Denied { rule: "d".to_owned() };
    let out = Guard::scrub_gated_fields(&denied, gated_issue());
    assert!(fields(&out).get("attachment").is_none());
    assert!(fields(&out).get("comment").is_none());
    assert!(fields(&out).get("worklog").is_none());
}

#[test]
fn scrub_gated_fields_malformed_comment_container_fails_closed() {
    let with_comments = granted(&[Capability::Read, Capability::Comments]);
    let issue = json(
        r#"{"key": "HR-3", "fields": {"summary": "s", "comment": {"comments": "not-an-array"}}}"#,
    );
    let out = Guard::scrub_gated_fields(&with_comments, issue);
    assert!(fields(&out).get("comment").is_none(), "strip, never serve");
}

#[test]
fn looks_like_issue_key_shape() {
    assert!(looks_like_issue_key("PROJ-123"));
    assert!(!looks_like_issue_key("not a key"));
    assert!(!looks_like_issue_key("PROJ-"));
}

#[test]
fn looks_like_issue_key_corners() {
    assert!(looks_like_issue_key(" AB-1 "));
    assert!(!looks_like_issue_key("-1"));
    assert!(!looks_like_issue_key("AB-1x"));
    assert!(!looks_like_issue_key("2024-01-02"));
    assert!(!looks_like_issue_key(""));
}

#[test]
fn changelog_keys_are_redacted() {
    let log = json(
        r#"{"values": [{"items": [
            {"field": "Epic Link", "fromString": "SEC-1", "toString": "OPEN-2"},
            {"field": "status", "from": "3", "to": "SEC-1 moved"}
        ]}]}"#,
    );
    let out = Guard::scrub_changelog(&log, &set(&["OPEN-2"]));
    assert_eq!(text(&out, "values/0/items/0/fromString"), "[redacted]");
    assert_eq!(text(&out, "values/0/items/0/toString"), "OPEN-2");
    assert_eq!(text(&out, "values/0/items/1/from"), "3");
    assert_eq!(text(&out, "values/0/items/1/to"), "SEC-1 moved");
}

#[test]
fn project_issue_goes_by_capability() {
    let body = issue("A-1", "A", None);
    let full = Guard::project_issue(&granted(&[Capability::Read]), &body).expect("read");
    assert!(fields(&full).get("reporter").is_some());
    let summary = Guard::project_issue(&granted(&[Capability::Summary]), &body).expect("summary");
    assert!(fields(&summary).get("reporter").is_none());
    assert!(Guard::project_issue(&granted(&[Capability::Comments]), &body).is_none());
}

#[test]
fn assess_denies_security_project() {
    let g = guard(
        r#"
default_action = "allow"
[[rule]]
name = "hide-sec"
action = "deny"
[rule.match]
projects = ["SEC*"]
"#,
    );
    let out = assess(&g, &["SEC-1", "OPEN-1"], &|key| match key {
        "SEC-1" => Some(issue("SEC-1", "SEC", None)),
        "OPEN-1" => Some(issue("OPEN-1", "OPEN", None)),
        _ => None,
    });
    assert!(matches!(entry(&out, "SEC-1").0, Access::Denied { .. }));
    assert!(entry(&out, "OPEN-1").0.allows(Capability::Read));
}

#[test]
fn assess_never_aliases_requested_key_to_another_issue() {
    // The later-requested key's reported form ("ABC-9") sorts before the
    // earlier fetched key ("ZED-1"). The requested key must bind to the issue
    // fetched for it.
    let g = guard(HIDE_SEC);
    let out = assess(&g, &["ZED-1", "OLD-9"], &|key| match key {
        "ZED-1" => Some(issue("ZED-1", "OPEN", None)),
        // Moved issue: requesting OLD-9 reports key ABC-9 in a denied project.
        "OLD-9" => Some(issue("ABC-9", "SEC", None)),
        _ => None,
    });
    assert!(matches!(entry(&out, "OLD-9").0, Access::Denied { .. }));
    assert_eq!(text(&entry(&out, "OLD-9").1, "key"), "ABC-9");
    assert!(entry(&out, "ZED-1").0.allows(Capability::Read));
    assert_eq!(text(&entry(&out, "ZED-1").1, "key"), "ZED-1");
}

#[test]
fn assess_resolves_case_and_moved_key_redirects() {
    let g = guard("default_action = \"allow\"\n");
    let out = assess(&g, &["abc-9", "OLD-1"], &|key| match key {
        // Case-only difference: requested lowercase, reported uppercase.
        "abc-9" => Some(issue("ABC-9", "OPEN", None)),
        // Moved issue: the reported key shares nothing with the requested one.
        "OLD-1" => Some(issue("NEW-5", "OPEN", None)),
        _ => None,
    });
    assert!(entry(&out, "abc-9").0.allows(Capability::Read));
    assert_eq!(text(&entry(&out, "abc-9").1, "key"), "ABC-9");
    assert!(entry(&out, "OLD-1").0.allows(Capability::Read));
    assert_eq!(text(&entry(&out, "OLD-1").1, "key"), "NEW-5");
}

#[test]
fn assess_fail_closed_on_missing_issue() {
    let g = guard("default_action = \"allow\"\n");
    let out = assess(&g, &["NOPE-1"], &|_| None);
    assert!(matches!(
        &entry(&out, "NOPE-1").0,
        Access::Denied { rule } if rule == "unavailable"
    ));
    assert!(entry(&out, "NOPE-1").1.is_null());
}

#[test]
fn assess_trims_and_leaves_blank_keys_out() {
    let keys = owned(&[" A-1 ", "", "A-1", "  ", "B-2"]);
    assert_eq!(Guard::keys_to_fetch(&keys), owned(&["A-1", "B-2"]));
    let many: Vec<String> = (0..40).map(|i| format!("A-{i}")).collect();
    assert_eq!(Guard::keys_to_fetch(&many).len(), MAX_ASSESS_KEYS);
}

#[test]
fn attachment_unknown_size_refused_before_download() {
    let g = guard("default_action = \"allow\"\n[global]\nmax_attachment_bytes = 1024\n");
    let atts = jirakeep::client::JiraClient::list_attachments_from(Ok(json(
        r#"{"key": "ATT-1", "id": "9", "fields": {"attachment": [
            {"id": "10001", "filename": "big.bin",
             "content": "http://jira.test/rest/api/3/attachment/content/10001"},
            {"id": "10002", "filename": "big2.bin", "size": "524288000",
             "content": "http://jira.test/rest/api/3/attachment/content/10001"}
        ]}}"#,
    )))
    .unwrap();
    assert_eq!(atts.len(), 2);
    for meta in &atts {
        let size = meta.get("size").and_then(Json::as_u64);
        assert!(
            !g.attachment_within_cap(size),
            "unknown attachment size must fail closed"
        );
    }
}

#[test]
fn assess_security_level_deny() {
    let g = guard(
        r#"
default_action = "allow"
[[rule]]
name = "embargo"
action = "deny"
[rule.match]
security_levels = ["*Embargo*"]
"#,
    );
    let out = assess(&g, &["X-1"], &|_| Some(issue("X-1", "X", Some("Red Embargo"))));
    assert!(!entry(&out, "X-1").0.allows(Capability::Summary));
}

#[test]
fn search_filtered_drops_denied_silently() {
    let g = guard(HIDE_SEC);
    let envelope = json(&format!(
        r#"{{"issues": [{}, {}]}}"#,
        issue_text("SEC-1", "SEC", "null", ""),
        issue_text("OPEN-1", "OPEN", "null", "")
    ));
    let window = search(&g, &envelope, 10, &|_| None);
    assert_eq!(window.issues.len(), 1);
    assert_eq!(text(&window.issues[0], "key"), "OPEN-1");
    assert_eq!(window.dropped_keys, vec!["SEC-1".to_string()]);
    assert_eq!(window.scanned, 2);
}

#[test]
fn search_filtered_scrubs_denied_linked_keys() {
    // PUB-7 references denied and unavailable issues through its link fields.
    let pub7 = issue_text(
        "PUB-7",
        "PUB",
        "null",
        r#", "issuelinks": [
              {"outwardIssue": {"key": "SEC-42"}},
              {"inwardIssue": {"key": "PUB-8"}}
           ],
           "parent": {"key": "SEC-1"},
           "subtasks": [{"key": "SEC-2"}, {"key": "PUB-9"}]"#,
    );
    // PUB-8 is in the served window: its key must stay disclosable
    // without a classification re-fetch.
    let envelope = json(&format!(
        r#"{{"issues": [{pub7}, {}]}}"#,
        issue_text("PUB-8", "PUB", "null", "")
    ));
    let g = guard(HIDE_SEC);
    let window = search(&g, &envelope, 10, &|key| match key {
        "SEC-42" => Some(issue("SEC-42", "SEC", None)),
        "SEC-1" => Some(issue("SEC-1", "SEC", None)),
        // SEC-2 cannot be fetched at all: fail closed, scrub.
        "SEC-2" => None,
        "PUB-9" => Some(issue("PUB-9", "PUB", None)),
        other => panic!("{other} was fetched"),
    });
    assert_eq!(window.issues.len(), 2);
    let served = &window.issues[0];
    assert_eq!(text(served, "key"), "PUB-7");
    assert_eq!(count(served, "fields/issuelinks"), 1, "denied SEC-42 link must be scrubbed");
    assert_eq!(text(served, "fields/issuelinks/0/inwardIssue/key"), "PUB-8");
    assert!(fields(served).get("parent").is_none(), "denied parent must be scrubbed");
    assert_eq!(count(served, "fields/subtasks"), 1, "unfetchable SEC-2 must scrub fail-closed");
    assert_eq!(text(served, "fields/subtasks/0/key"), "PUB-9");
    assert_eq!(
        window.scrubbed_keys,
        vec!["SEC-1".to_string(), "SEC-2".to_string(), "SEC-42".to_string()]
    );
    for served in &window.issues {
        let body = render(served);
        assert!(!body.contains("SEC-"), "denied key leaked: {body}");
    }
}

#[test]
fn search_filtered_scrubs_linked_keys_past_assess_bound() {
    let total = MAX_ASSESS_KEYS + 5;
    let subtasks: Vec<String> = (1..=total).map(|i| format!(r#"{{"key": "LNK-{i}"}}"#)).collect();
    let parent = issue_text(
        "PUB-1",
        "PUB",
        "null",
        &format!(r#", "subtasks": [{}]"#, subtasks.join(",")),
    );
    let envelope = json(&format!(r#"{{"issues": [{parent}]}}"#));
    let g = guard("default_action = \"allow\"\n");
    // Every linked key would classify as allowed if it were assessed.
    let window = search(&g, &envelope, 10, &|_| Some(issue("LNK-0", "LNK", None)));
    assert_eq!(window.issues.len(), 1);
    let subs = at(&window.issues[0], "fields/subtasks").as_array().unwrap();
    assert_eq!(
        subs.len(),
        MAX_ASSESS_KEYS,
        "keys past the assessment bound must scrub, not pass"
    );
    assert_eq!(window.scrubbed_keys.len(), total - MAX_ASSESS_KEYS);
    for key in &window.scrubbed_keys {
        assert!(
            !subs.iter().any(|s| text(s, "key") == key.as_str()),
            "scrubbed key {key} still served"
        );
    }
}

#[test]
fn search_serves_no_more_than_asked() {
    let issues: Vec<String> =
        (1..=6).map(|i| issue_text(&format!("A-{i}"), "A", "null", "")).collect();
    let envelope =
        json(&format!(r#"{{"issues": [{}], "nextPageToken": "t"}}"#, issues.join(",")));
    let g = guard("default_action = \"allow\"\n");
    let window = search(&g, &envelope, 2, &|_| None);
    assert_eq!(window.issues.len(), 2);
    assert_eq!(window.next_page_token.as_deref(), Some("t"));
    assert_eq!(Guard::search_fetch_size(2), 4);
    assert_eq!(Guard::search_fetch_size(0), 1);
    assert_eq!(Guard::search_fetch_size(80), 100);
}

#[test]
fn resolve_caller_only_where_asked() {
    let g = guard("default_action = \"allow\"\n");
    assert_eq!(g.resolve_caller(Some("acc".to_owned())), None);
    let g = guard(
        "default_action = \"deny\"\n[[rule]]\nname = \"mine\"\naction = \"allow\"\n[rule.match]\ncreated_by_me = true\n",
    );
    assert_eq!(g.resolve_caller(Some("acc".to_owned())).as_deref(), Some("acc"));
    assert_eq!(g.resolve_caller(None), None);
}

#[test]
fn may_create_goes_by_project() {
    let g = guard(HIDE_SEC);
    let mut meta = IssueMeta::default();
    meta.project = Some("OPEN".to_owned());
    assert!(g.may_create(&meta, NOW).allows(Capability::Create));
    meta.project = Some("SEC".to_owned());
    assert!(!g.may_create(&meta, NOW).allows(Capability::Create));
    // What is not known of the issue denies.
    meta.project = None;
    assert!(!g.may_create(&meta, NOW).allows(Capability::Create));
    assert!(g.allows(Capability::Read));
}

#[test]
fn a_failed_fetch_takes_no_body_of_another_key() {
    let g = Guard::new(Policy::default());
    let site = |key: &str| match key {
        "B-1" => Some(issue("A-1", "A", None)),
        _ => None,
    };
    let out = assess(&g, &["A-1", "B-1"], &site);
    let (access, body) = entry(&out, "A-1");
    assert!(matches!(access, Access::Denied { rule } if rule == "unavailable"));
    assert!(body.is_null());
    let (access, body) = entry(&out, "B-1");
    assert!(access.allows(Capability::Read));
    assert_eq!(text(body, "key"), "A-1");
}

#[test]
fn a_body_is_not_replaced_by_that_of_another_key() {
    let g = guard(HIDE_SEC);
    let site = |key: &str| match key {
        "A-1" => Some(issue("A-1", "SEC", None)),
        "B-1" => Some(issue("A-1", "OPEN", None)),
        "a-1" => None,
        _ => None,
    };
    let out = assess(&g, &["A-1", "B-1", "a-1"], &site);
    assert!(matches!(&entry(&out, "A-1").0, Access::Denied { rule } if rule == "hide-sec"));
    assert!(entry(&out, "B-1").0.allows(Capability::Read));
    assert!(matches!(&entry(&out, "a-1").0, Access::Denied { rule } if rule == "unavailable"));
}

#[test]
fn a_removed_link_reports_both_of_its_sides() {
    let issue = json(
        r#"{"fields": {"issuelinks": [
            {"inwardIssue": {"key": "SEC-1"}, "outwardIssue": {"key": "SEC-2"}}
        ]}}"#,
    );
    let (clean, removed) = Guard::scrub_links(&issue, &set(&[]), &Vec::new());
    assert_eq!(clean, json(r#"{"fields": {"issuelinks": []}}"#));
    assert_eq!(removed, owned(&["SEC-1", "SEC-2"]));
    let (clean, removed) = Guard::scrub_links(&issue, &set(&["SEC-2"]), &Vec::new());
    assert_eq!(count(&clean, "fields/issuelinks"), 0);
    assert_eq!(removed, owned(&["SEC-1"]));
}

#[test]
fn summary_view_keeps_the_summary_fields_alone() {
    let issue = json(
        r#"{"key": "P-1", "id": "1", "fields": {
            "summary": "s", "resolution": {"name": "Done"}, "updated": "u"
        }}"#,
    );
    let view = Guard::summary_view(&issue);
    assert_eq!(fields(&view), &json(r#"{"summary": "s", "updated": "u"}"#));
}

#[test]
fn documents_are_written_on_several_lines() {
    let text = r#"{"b": [1, -2, 0.1, null], "a": {"x": "q\"\\"}, "c": {}}"#;
    assert_eq!(
        json(text).pretty(),
        "{\n  \"a\": {\n    \"x\": \"q\\\"\\\\\"\n  },\n  \"b\": [\n    1,\n    -2,\n    0.1,\n    null\n  ],\n  \"c\": {}\n}"
    );
    assert_eq!(json("0.30000000000000004").pretty(), "0.30000000000000004");
    assert_eq!(Json::Negative(5).pretty(), "5");
    assert_eq!(Json::Decimal("odd".to_owned()).pretty(), "\"odd\"");
    assert_eq!(json(&json(text).pretty()), json(text));
}

#[test]
fn both_lists_of_a_changelog_are_redacted() {
    let log = json(
        r#"{"values": [{"items": [{"from": "SEC-1"}]}],
            "histories": [{"items": [{"to": "SEC-2", "from": "OPEN-1"}]}]}"#,
    );
    let out = Guard::scrub_changelog(&log, &set(&["OPEN-1"]));
    assert_eq!(text(&out, "values/0/items/0/from"), "[redacted]");
    assert_eq!(text(&out, "histories/0/items/0/to"), "[redacted]");
    assert_eq!(text(&out, "histories/0/items/0/from"), "OPEN-1");
}
