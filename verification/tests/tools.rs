//! The tools, run step by step against a site that answers from a table.

use jirakeep::audit::Verdict;
use jirakeep::client::{Authorization, Credentials, Method, Payload, Request, Transfer};
use jirakeep::config::{AuthModeCli, Cli, Transport};
use jirakeep::guard::Guard;
use jirakeep::json::Json;
use jirakeep::policy::Policy;
use jirakeep::reply::{ClientError, Download, Reply};
use jirakeep::run::{Event, Outcome, Run, Step};
use jirakeep::server::{jira_client, JiraKeep};
use jirakeep::tools::{
    AddAttachmentParams, AddCommentParams, AssignParams, CreateIssueParams,
    DownloadAttachmentParams, IssueCommentsParams, IssueHistoryParams, IssueKeyParams,
    IssueKeysParams, LinkParams, SearchFilterParams, SearchParams, Tool, ToolCall,
    TransitionParams, UpdateFieldsParams, WatcherParams,
};

const NOW: i64 = 1_800_000_000;
const SITE: &str = "http://jira.test";
const KEY: &str = "OPS-1";

// --- a site -----------------------------------------------------------------

/// A site that answers from a table, and takes down what it was asked.
struct Site {
    routes: Vec<(Method, String, u16, String)>,
    log: Vec<String>,
    bodies: Vec<Json>,
}

impl Site {
    fn new() -> Site {
        Site { routes: Vec::new(), log: Vec::new(), bodies: Vec::new() }
    }

    fn on(mut self, method: Method, path: &str, status: u16, body: &str) -> Site {
        self.routes.push((method, path.to_owned(), status, body.to_owned()));
        self
    }

    fn get(self, path: &str, body: &str) -> Site {
        self.on(Method::Get, path, 200, body)
    }

    fn answer(&mut self, request: &Request) -> Reply {
        let path = request.url.strip_prefix(SITE).expect("a request to the site").to_owned();
        self.log.push(format!("{:?} {path}", request.method));
        if let Payload::Document(v) = &request.payload {
            self.bodies.push(v.clone());
        }
        let found = self
            .routes
            .iter()
            .find(|(method, route, _, _)| *method == request.method && *route == path);
        let (status, body) = match found {
            Some((_, _, status, body)) => (*status, body.clone()),
            None => (404, r#"{"errorMessages": ["not found"]}"#.to_owned()),
        };
        match request.transfer {
            Transfer::Text => Reply::Answer { status, body },
            Transfer::Bytes { limit } => match Download::begin(status, None, limit) {
                Ok(mut download) => match download.push(&body.into_bytes()) {
                    Ok(()) => Reply::Data(download.finish()),
                    Err(e) => Reply::Aborted(e),
                },
                Err(e) => Reply::Aborted(e),
            },
        }
    }

    fn asked(&self, line: &str) -> usize {
        self.log.iter().filter(|l| l.as_str() == line).count()
    }
}

fn config(auth_mode: AuthModeCli, email: Option<&str>) -> Cli {
    Cli {
        jira_server: SITE.to_owned(),
        auth_mode,
        api_version: None,
        transport: Transport::Stdio,
        host: "127.0.0.1".to_owned(),
        port: 8000,
        api_key_header: "ApiKey".to_owned(),
        email_header: "X-Atlassian-Email".to_owned(),
        api_key: Some("MCPTESTTOKEN".to_owned()),
        api_key_file: None,
        email: email.map(|e| e.to_owned()),
        email_file: None,
        read_only: false,
        policy: None,
        audit_config: None,
    }
}

fn server(cfg: Cli, policy: &str) -> JiraKeep {
    let policy = Policy::from_toml_str(policy).expect("policy");
    let jira = jira_client(&cfg).expect("jira client");
    match JiraKeep::new(cfg, Guard::new(policy), jira, None, None) {
        Ok(keep) => keep,
        Err(e) => panic!("{}", e.message()),
    }
}

fn keep(policy: &str) -> JiraKeep {
    server(config(AuthModeCli::Basic, Some("mcp-test@example.com")), policy)
}

fn creds(keep: &JiraKeep) -> Credentials {
    keep.credentials(None, None).ok().expect("credentials")
}

/// Runs a call to its end.
fn call(keep: &JiraKeep, site: &mut Site, call: ToolCall) -> (Run, Outcome) {
    let (mut run, mut step) = keep.start(call, creds(keep), NOW);
    loop {
        match step {
            Step::Finish(outcome) => return (run, outcome),
            Step::Call(request) => {
                let reply = site.answer(&request);
                let next = keep.resume(run, reply, NOW);
                run = next.0;
                step = next.1;
            }
        }
    }
}

fn success(outcome: Outcome) -> Json {
    match outcome {
        Outcome::Success(v) => v,
        Outcome::Failure(text) => panic!("failed: {text}"),
        Outcome::Prompt { .. } => panic!("prompt"),
    }
}

fn failure(outcome: Outcome) -> String {
    match outcome {
        Outcome::Failure(text) => text,
        _ => panic!("no failure"),
    }
}

fn verdict(run: &Run) -> Option<Verdict> {
    run.cell().snapshot().0
}

// --- documents --------------------------------------------------------------

fn json(text: &str) -> Json {
    Json::parse(text).expect("json")
}

fn at<'a>(value: &'a Json, path: &str) -> &'a Json {
    let mut here = value;
    for name in path.split('/') {
        here = match here {
            Json::Array(items) => &items[name.parse::<usize>().expect("index")],
            other => other.get(name).unwrap_or(&Json::Null),
        };
    }
    here
}

fn text<'a>(value: &'a Json, path: &str) -> &'a str {
    at(value, path).as_str().expect("text")
}

fn count(value: &Json, path: &str) -> usize {
    at(value, path).as_array().expect("array").len()
}

fn members(value: &Json) -> Vec<String> {
    match value {
        Json::Object(members) => members.entries.iter().map(|(name, _)| name.clone()).collect(),
        _ => panic!("no object"),
    }
}

fn render(value: &Json) -> String {
    match value {
        Json::Null => "null".to_owned(),
        Json::Bool(b) => b.to_string(),
        Json::Unsigned(n) => n.to_string(),
        Json::Negative(n) => n.to_string(),
        Json::Decimal(s) => s.clone(),
        Json::Text(s) => format!("{s:?}"),
        Json::Array(items) => {
            let items: Vec<String> = items.iter().map(render).collect();
            format!("[{}]", items.join(","))
        }
        Json::Object(members) => {
            let members: Vec<String> = members
                .entries
                .iter()
                .map(|(name, value)| format!("{name:?}:{}", render(value)))
                .collect();
            format!("{{{}}}", members.join(","))
        }
    }
}

fn issue(key: &str, project: &str) -> String {
    issue_with(key, project, "")
}

fn issue_with(key: &str, project: &str, more: &str) -> String {
    format!(
        r#"{{"key": "{key}", "id": "1", "fields": {{
            "summary": "s",
            "project": {{"key": "{project}"}},
            "status": {{"name": "Open"}},
            "priority": {{"name": "Medium"}},
            "issuetype": {{"name": "Bug"}},
            "labels": [],
            "components": [],
            "created": "2020-01-01T00:00:00.000+0000",
            "reporter": {{"accountId": "u1"}},
            "security": null{more}
        }}}}"#
    )
}

const ALLOW: &str = "default_action = \"allow\"\n";

const HIDE_SEC: &str = r#"
default_action = "allow"
[[rule]]
name = "hide-sec"
action = "deny"
[rule.match]
projects = ["SEC"]
"#;

// --- updates ----------------------------------------------------------------

fn edit_site() -> Site {
    Site::new()
        .get("/rest/api/3/issue/OPS-1", &issue(KEY, "OPS"))
        .on(Method::Put, "/rest/api/3/issue/OPS-1", 204, "")
}

fn update(site: &mut Site, fields: &str) -> (Run, Outcome) {
    call(
        &keep(ALLOW),
        site,
        ToolCall::UpdateIssueFields(UpdateFieldsParams { key: KEY.to_owned(), fields: json(fields) }),
    )
}

#[test]
fn update_issue_fields_refuses_assignee_at_the_tool_boundary() {
    let mut site = edit_site();
    let (run, outcome) = update(&mut site, r#"{"assignee": {"accountId": "5b10ac8d"}}"#);
    assert_eq!(
        failure(outcome),
        "field \"assignee\" cannot be set through update_issue_fields"
    );
    assert_eq!(verdict(&run), Some(Verdict::Refused));
    assert_eq!(site.asked("Put /rest/api/3/issue/OPS-1"), 0);
}

#[test]
fn update_issue_fields_refuses_owned_and_privileged_fields() {
    let mut site = edit_site();
    for banned in ["assignee", "resolution", "parent", "security", "project", "reporter"] {
        let (_, outcome) = update(&mut site, &format!(r#"{{"{banned}": {{"id": "1"}}}}"#));
        assert_eq!(
            failure(outcome),
            format!("field \"{banned}\" cannot be set through update_issue_fields"),
            "field {banned}"
        );
    }
    let (_, outcome) = update(&mut site, "42");
    assert_eq!(failure(outcome), "fields must be a JSON object");
    assert_eq!(site.asked("Put /rest/api/3/issue/OPS-1"), 0);
}

#[test]
fn update_issue_fields_permits_ordinary_edit() {
    let mut site = edit_site();
    let (_, outcome) = update(&mut site, r#"{"summary": "new summary", "labels": ["triage"]}"#);
    let body = success(outcome);
    assert!(matches!(body.get("ok"), Some(Json::Bool(true))));
    assert_eq!(text(&body, "key"), KEY);
    assert_eq!(site.asked("Put /rest/api/3/issue/OPS-1"), 1);
}

// --- searching --------------------------------------------------------------

#[test]
fn search_filter_runs_filter_jql_through_the_guarded_search() {
    let found = format!(
        r#"{{"issues": [{}, {}], "nextPageToken": "tok"}}"#,
        issue("OPS-7", "OPS"),
        issue("SEC-9", "SEC")
    );
    let mut site = Site::new()
        .get(
            "/rest/api/3/filter/10042",
            r#"{"id": "10042", "name": "triage", "jql": "project in (OPS, SEC)",
                "sharePermissions": [{"type": "group"}]}"#,
        )
        .on(Method::Post, "/rest/api/3/search/jql", 200, &found);
    let (run, outcome) = call(
        &keep(HIDE_SEC),
        &mut site,
        ToolCall::SearchFilter(SearchFilterParams {
            filter_id: "10042".to_owned(),
            max_results: 50,
            next_page_token: None,
            start_at: None,
        }),
    );
    let body = success(outcome);
    assert_eq!(site.asked("Get /rest/api/3/filter/10042"), 1);
    assert_eq!(site.asked("Post /rest/api/3/search/jql"), 1);
    // The filter's stored JQL runs.
    assert_eq!(text(&site.bodies[0], "jql"), "project in (OPS, SEC)");
    assert!(!render(&body).contains("SEC-9"), "denied issue served");
    assert_eq!(members(&body).len(), 2);
    assert_eq!(text(&body, "nextPageToken"), "tok");
    assert_eq!(count(&body, "issues"), 1);
    assert_eq!(text(&body, "issues/0/key"), "OPS-7");
    // What was left out is on the audit side.
    let (verdict, _, keys, n) = run.cell().snapshot();
    assert_eq!(verdict, Some(Verdict::Filtered));
    assert_eq!(keys, vec!["SEC-9".to_owned()]);
    assert_eq!(n, Some(1));
    assert_eq!(run.cell().scan(), Some((2, 1)));
}

#[test]
fn search_filter_without_jql_fails() {
    let mut site = Site::new().get("/rest/api/3/filter/1", "{}");
    let params = |id: &str| {
        ToolCall::SearchFilter(SearchFilterParams {
            filter_id: id.to_owned(),
            max_results: 50,
            next_page_token: None,
            start_at: None,
        })
    };
    let (_, outcome) = call(&keep(ALLOW), &mut site, params("1"));
    assert_eq!(failure(outcome), "filter has no JQL");
    let (_, outcome) = call(&keep(ALLOW), &mut site, params("2"));
    assert!(failure(outcome).starts_with("filter lookup failed: "));
}

#[test]
fn list_filters_never_serves_sharing_metadata() {
    let mut site = Site::new().get(
        "/rest/api/3/filter/favourite",
        r#"[{
            "id": "10042",
            "name": "triage",
            "description": "weekly",
            "jql": "project = OPS",
            "owner": {"displayName": "Alice", "accountId": "acc-1"},
            "viewUrl": "https://jira.example/issues/?filter=10042",
            "sharePermissions": [{"type": "group", "group": {"name": "staff"}}],
            "sharedUsers": {"items": [{"accountId": "acc-2"}]},
            "subscriptions": {"items": [{"user": {"accountId": "acc-3"}}]}
        }]"#,
    );
    let (_, outcome) = call(&keep(ALLOW), &mut site, ToolCall::ListFilters);
    let body = success(outcome);
    let text_of = render(&body);
    for banned in [
        "sharePermissions",
        "sharedUsers",
        "subscriptions",
        "accountId",
        "acc-1",
        "acc-2",
        "acc-3",
    ] {
        assert!(!text_of.contains(banned), "{banned} leaked: {text_of}");
    }
    assert_eq!(text(&body, "filters/0/id"), "10042");
    assert_eq!(text(&body, "filters/0/owner"), "Alice");
    assert_eq!(text(&body, "filters/0/jql"), "project = OPS");
}

fn search_call(jql: &str) -> ToolCall {
    ToolCall::IssuesSearch(SearchParams {
        jql: jql.to_owned(),
        max_results: 10,
        next_page_token: None,
        start_at: None,
    })
}

#[test]
fn search_scrubs_linked_keys_and_says_nothing() {
    let found = format!(
        r#"{{"issues": [{}]}}"#,
        issue_with(
            "PUB-7",
            "PUB",
            r#", "parent": {"key": "SEC-1"}, "subtasks": [{"key": "PUB-9"}, {"key": "GONE-1"}]"#
        )
    );
    let mut site = Site::new()
        .on(Method::Post, "/rest/api/3/search/jql", 200, &found)
        .get("/rest/api/3/issue/SEC-1", &issue("SEC-1", "SEC"))
        .get("/rest/api/3/issue/PUB-9", &issue("PUB-9", "PUB"));
    let (run, outcome) = call(&keep(HIDE_SEC), &mut site, search_call("project = PUB"));
    let body = success(outcome);
    assert!(at(&body, "issues/0/fields").get("parent").is_none());
    assert_eq!(count(&body, "issues/0/fields/subtasks"), 1);
    assert_eq!(text(&body, "issues/0/fields/subtasks/0/key"), "PUB-9");
    assert!(!render(&body).contains("SEC-1"));
    assert_eq!(run.cell().snapshot().2, vec!["GONE-1".to_owned(), "SEC-1".to_owned()]);
}

#[test]
fn search_falls_back_once() {
    let found = format!(r#"{{"issues": [{}]}}"#, issue("LEG-1", "LEG"));
    let mut site = Site::new().on(Method::Post, "/rest/api/3/search", 200, &found);
    let (_, outcome) = call(&keep(ALLOW), &mut site, search_call("order by created"));
    assert_eq!(text(&success(outcome), "issues/0/key"), "LEG-1");
    assert_eq!(site.log, vec!["Post /rest/api/3/search/jql", "Post /rest/api/3/search"]);
    let mut site = Site::new();
    let (_, outcome) = call(&keep(ALLOW), &mut site, search_call("order by created"));
    assert!(failure(outcome).starts_with("search failed: "));
    assert_eq!(site.log.len(), 2);
}

// --- the Data Center surface ------------------------------------------------

#[test]
fn bearer_mode_works_end_to_end_on_rest_api_2_only() {
    let body = issue("DC-1", "DC");
    let found = format!(r#"{{"issues": [{body}], "startAt": 3, "maxResults": 20, "total": 42}}"#);
    let mut site = Site::new()
        .get("/rest/api/2/myself", r#"{"accountId": "dc-user"}"#)
        .get("/rest/api/2/issue/DC-1", &body)
        .get(
            "/rest/api/2/issue/DC-1/comment",
            r#"{"comments": [{"id": "30001", "body": "dc comment"}],
                "startAt": 0, "maxResults": 1, "total": 1}"#,
        )
        .on(Method::Post, "/rest/api/2/search", 200, &found);
    let keep = server(config(AuthModeCli::Bearer, None), ALLOW);

    let (_, outcome) = call(
        &keep,
        &mut site,
        ToolCall::IssueInfo(IssueKeysParams { keys: vec!["DC-1".to_owned()] }),
    );
    let info = success(outcome);
    assert_eq!(text(&info, "issues/0/key"), "DC-1");
    assert_eq!(count(&info, "restricted"), 0);

    let (_, outcome) = call(
        &keep,
        &mut site,
        ToolCall::IssueComments(IssueCommentsParams {
            key: "DC-1".to_owned(),
            include_restricted: false,
            max_results: 50,
        }),
    );
    assert_eq!(text(&success(outcome), "comments/0/body"), "dc comment");

    let (_, outcome) = call(
        &keep,
        &mut site,
        ToolCall::IssuesSearch(SearchParams {
            jql: "project = DC".to_owned(),
            max_results: 10,
            next_page_token: None,
            start_at: Some(3),
        }),
    );
    let search = success(outcome);
    assert_eq!(text(&search, "issues/0/key"), "DC-1");
    // v2 has no token pagination: the field exists and is null.
    assert!(matches!(search.get("nextPageToken"), Some(Json::Null)));
    // The v2 envelope's total/startAt/maxResults never reach the client.
    assert_eq!(members(&search), vec!["issues", "nextPageToken"]);
    // v2 search pages by offset.
    assert_eq!(at(&site.bodies[0], "startAt").as_u64(), Some(3));
    assert_eq!(site.asked("Post /rest/api/2/search"), 1);
    assert!(site.log.iter().all(|l| !l.contains("/rest/api/3/")));
}

// --- issue details ----------------------------------------------------------

const ISSUE_KEY: &str = "HR-3";
const SECRET_FILENAME: &str = "severance-agreement-smith.pdf";
const PUBLIC_COMMENT: &str = "public onboarding note";
const RESTRICTED_COMMENT: &str = "manager-only severance discussion";
const WORKLOG_NOTE: &str = "billing-sensitive worklog note";

fn hr_policy(capabilities: &str) -> String {
    format!(
        r#"
default_action = "deny"
[[rule]]
name = "read-some"
action = "restrict"
capabilities = [{capabilities}]
[rule.match]
projects = ["HR"]
"#
    )
}

fn hr_issue(more: &str) -> String {
    format!(
        r#"{{"key": "{ISSUE_KEY}", "id": "10042", "fields": {{
            "summary": "Onboarding paperwork",
            "description": "full body",
            "project": {{"key": "HR"}},
            "status": {{"name": "Open"}},
            "priority": {{"name": "Medium"}},
            "issuetype": {{"name": "Task"}},
            "labels": [],
            "components": [],
            "created": "2020-01-01T00:00:00.000+0000",
            "reporter": {{"accountId": "u1"}},
            "security": null,
            "attachment": [{{
                "id": "20001",
                "filename": "{SECRET_FILENAME}",
                "size": 1234,
                "created": "2020-01-02T00:00:00.000+0000",
                "author": {{"accountId": "u1"}},
                "content": "https://example.invalid/attachment/content/20001"
            }}],
            "comment": {{
                "comments": [
                    {{"id": "30001", "body": "{PUBLIC_COMMENT}"}},
                    {{"id": "30002", "body": "{RESTRICTED_COMMENT}",
                      "visibility": {{"type": "role", "value": "HR Managers"}}}}
                ],
                "maxResults": 2,
                "total": 2,
                "startAt": 0
            }},
            "worklog": {{
                "worklogs": [{{"id": "40001", "comment": "{WORKLOG_NOTE}", "timeSpent": "2h"}}],
                "total": 1
            }},
            "watches": {{"watchCount": 3, "isWatching": false}},
            "votes": {{"votes": 1, "hasVoted": false}}{more}
        }}}}"#
    )
}

fn hr_site() -> Site {
    Site::new().get("/rest/api/3/issue/HR-3", &hr_issue(""))
}

fn info_call(keys: &[&str]) -> ToolCall {
    ToolCall::IssueInfo(IssueKeysParams { keys: keys.iter().map(|k| k.to_string()).collect() })
}

#[test]
fn issue_info_strips_attachments_like_list_attachments_denial() {
    let keep = keep(&hr_policy(r#""read", "summary", "comments""#));
    let mut site = hr_site();
    // issue_info serves the full Read body — minus attachment metadata.
    let (run, outcome) = call(&keep, &mut site, info_call(&[ISSUE_KEY]));
    let payload = success(outcome);
    let shown = render(&payload);
    assert!(!shown.contains(SECRET_FILENAME), "attachment filename leaked: {shown}");
    assert!(!shown.contains("attachment"), "attachment field leaked: {shown}");
    assert!(!shown.contains(RESTRICTED_COMMENT), "restricted comment leaked: {shown}");
    assert!(
        !shown.contains(WORKLOG_NOTE) && !shown.contains("worklog"),
        "worklog content leaked: {shown}"
    );
    let fields = at(&payload, "issues/0/fields");
    assert_eq!(text(&payload, "issues/0/key"), ISSUE_KEY);
    // The rest of the full body is still served normally.
    assert_eq!(text(fields, "description"), "full body");
    assert_eq!(text(fields, "summary"), "Onboarding paperwork");
    assert!(fields.get("attachment").is_none());
    // `comments` is granted: the container is served, minus the restricted
    // comment, with total tracking the served list.
    assert_eq!(count(fields, "comment/comments"), 1);
    assert_eq!(text(fields, "comment/comments/0/body"), PUBLIC_COMMENT);
    assert_eq!(at(fields, "comment/total").as_u64(), Some(1));
    assert_eq!(count(&payload, "restricted"), 0);
    assert_eq!(verdict(&run), Some(Verdict::Served));

    // ... alongside the existing list_attachments denial.
    let (run, outcome) = call(
        &keep,
        &mut site,
        ToolCall::ListAttachments(IssueKeyParams { key: ISSUE_KEY.to_owned() }),
    );
    assert_eq!(
        failure(outcome),
        format!("Issue {ISSUE_KEY} is not accessible through this server")
    );
    assert_eq!(verdict(&run), Some(Verdict::Denied));
}

#[test]
fn issue_info_strips_comments_without_comments_capability() {
    let keep = keep(&hr_policy(r#""read", "summary""#));
    let mut site = hr_site();
    // issue_comments is denied under this policy ...
    let (_, outcome) = call(
        &keep,
        &mut site,
        ToolCall::IssueComments(IssueCommentsParams {
            key: ISSUE_KEY.to_owned(),
            include_restricted: false,
            max_results: 50,
        }),
    );
    assert_eq!(
        failure(outcome),
        format!("Issue {ISSUE_KEY} is not accessible through this server")
    );
    // ... so issue_info must not hand out the same comment bodies.
    let (_, outcome) = call(&keep, &mut site, info_call(&[ISSUE_KEY]));
    let payload = success(outcome);
    let shown = render(&payload);
    assert!(
        !shown.contains(PUBLIC_COMMENT) && !shown.contains(RESTRICTED_COMMENT),
        "comment bodies leaked: {shown}"
    );
    let fields = at(&payload, "issues/0/fields");
    assert!(fields.get("comment").is_none());
    assert!(fields.get("attachment").is_none());
    assert!(fields.get("worklog").is_none());
    // Count-only families remain part of the Read body.
    assert_eq!(at(fields, "watches/watchCount").as_u64(), Some(3));
    assert_eq!(at(fields, "votes/votes").as_u64(), Some(1));
    assert_eq!(text(fields, "description"), "full body");
}

#[test]
fn issue_info_scrubs_declared_epic_link_custom_field() {
    let policy = r#"
default_action = "allow"
[global]
link_custom_fields = ["customfield_10014"]
[[rule]]
name = "hide-sec"
action = "deny"
[rule.match]
projects = ["SEC"]
"#;
    let mut site = Site::new()
        .get("/rest/api/3/issue/HR-3", &hr_issue(r#", "customfield_10014": "SEC-100""#))
        .get(
            "/rest/api/3/issue/SEC-100",
            r#"{"key": "SEC-100", "id": "7", "fields": {
                "summary": "codename embargo",
                "project": {"key": "SEC"},
                "created": "2020-01-01T00:00:00.000+0000",
                "security": null
            }}"#,
        );
    let (run, outcome) = call(&keep(policy), &mut site, info_call(&[ISSUE_KEY]));
    let payload = success(outcome);
    assert!(!render(&payload).contains("SEC-100"), "denied epic key leaked");
    assert!(matches!(
        at(&payload, "issues/0/fields").get("customfield_10014"),
        Some(Json::Null)
    ));
    // Silent to the client: nothing reports the removal.
    assert_eq!(count(&payload, "restricted"), 0);
    assert_eq!(run.cell().snapshot().2, vec!["SEC-100".to_owned()]);
}

#[test]
fn issue_info_serves_attachments_when_capability_granted() {
    let keep = keep(&hr_policy(r#""read", "summary", "comments", "attachments""#));
    let (_, outcome) = call(&keep, &mut hr_site(), info_call(&[ISSUE_KEY]));
    let payload = success(outcome);
    assert_eq!(text(&payload, "issues/0/fields/attachment/0/filename"), SECRET_FILENAME);
    // This route has no restricted opt-in, so the restricted comment stays
    // out and worklog stays out.
    assert!(!render(&payload).contains(RESTRICTED_COMMENT));
    assert!(at(&payload, "issues/0/fields").get("worklog").is_none());
}

#[test]
fn issue_info_lists_denied_and_missing_alike() {
    let mut site = Site::new()
        .get("/rest/api/3/issue/OPS-1", &issue("OPS-1", "OPS"))
        .get("/rest/api/3/issue/SEC-1", &issue("SEC-1", "SEC"));
    let (run, outcome) =
        call(&keep(HIDE_SEC), &mut site, info_call(&["SEC-1", " OPS-1 ", "", "NONE-1"]));
    let payload = success(outcome);
    assert_eq!(count(&payload, "issues"), 1);
    assert_eq!(count(&payload, "restricted"), 2);
    assert_eq!(text(&payload, "restricted/0"), "SEC-1");
    assert_eq!(text(&payload, "restricted/1"), "NONE-1");
    assert_eq!(run.cell().snapshot().3, Some(2));
    // The whole body was asked for only where it may be read: once to
    // classify, once in full and once for the keys that it names.
    assert_eq!(site.asked("Get /rest/api/3/issue/SEC-1"), 1);
    assert_eq!(site.asked("Get /rest/api/3/issue/OPS-1"), 3);
}

#[test]
fn issue_info_serves_a_summary_where_no_more_is_granted() {
    let keep = keep(&hr_policy(r#""summary""#));
    let (_, outcome) = call(&keep, &mut hr_site(), info_call(&[ISSUE_KEY]));
    let payload = success(outcome);
    assert!(matches!(at(&payload, "issues/0/_redacted"), Json::Bool(true)));
    assert!(!render(&payload).contains("full body"));
}

#[test]
fn issue_info_takes_no_more_than_its_bound() {
    let keys: Vec<String> = (0..26).map(|i| format!("A-{i}")).collect();
    let keys: Vec<&str> = keys.iter().map(|k| k.as_str()).collect();
    let mut site = Site::new();
    let (run, outcome) = call(&keep(ALLOW), &mut site, info_call(&keys));
    assert_eq!(failure(outcome), "at most 25 issue keys per call");
    assert_eq!(verdict(&run), Some(Verdict::Refused));
    assert!(site.log.is_empty());
}

#[test]
fn whole_body_falls_back_to_the_classified_one() {
    let keep = keep(ALLOW);
    let (run, step) = keep.start(info_call(&["OPS-1"]), creds(&keep), NOW);
    assert!(matches!(step, Step::Call(_)));
    let classified = Event::Document(Ok(json(&issue("OPS-1", "OPS"))));
    let (run, step) = keep.resume_with(run, classified, NOW);
    match &step {
        Step::Call(request) => assert!(request.query.is_empty(), "the whole issue"),
        Step::Finish(_) => panic!("finished"),
    }
    let (run, _) = keep.resume_with(run, Event::Document(Err(ClientError::Unexpected)), NOW);
    let again = Event::Document(Ok(json(&issue("OPS-1", "OPS"))));
    let (_, step) = keep.resume_with(run, again, NOW);
    match step {
        Step::Finish(outcome) => {
            assert_eq!(text(&success(outcome), "issues/0/fields/summary"), "s")
        }
        Step::Call(_) => panic!("not finished"),
    }
}

// --- gates ------------------------------------------------------------------

fn comments_call(key: &str) -> ToolCall {
    ToolCall::IssueComments(IssueCommentsParams {
        key: key.to_owned(),
        include_restricted: true,
        max_results: 500,
    })
}

#[test]
fn denied_and_missing_issues_get_one_answer() {
    let mut site = Site::new().get("/rest/api/3/issue/SEC-1", &issue("SEC-1", "SEC"));
    let keep = keep(HIDE_SEC);
    let (_, denied) = call(&keep, &mut site, comments_call("SEC-1"));
    let (_, missing) = call(&keep, &mut Site::new(), comments_call("SEC-1"));
    let text = failure(denied);
    assert_eq!(text, "Issue SEC-1 is not accessible through this server");
    assert_eq!(failure(missing), text);
    // Nothing but the assessment was asked for.
    assert_eq!(site.log, vec!["Get /rest/api/3/issue/SEC-1"]);
    let (run, blank) = call(&keep, &mut Site::new(), comments_call("  "));
    assert_eq!(failure(blank), "Issue    is not accessible through this server");
    assert_eq!(verdict(&run), Some(Verdict::Denied));
}

#[test]
fn comments_are_filtered_and_capped() {
    let mut site = Site::new().get("/rest/api/3/issue/OPS-1", &issue(KEY, "OPS")).get(
        "/rest/api/3/issue/OPS-1/comment",
        r#"{"comments": [{"id": "1"}, {"id": "2", "visibility": {"type": "role"}}]}"#,
    );
    let (_, outcome) = call(&keep(ALLOW), &mut site, comments_call(KEY));
    assert_eq!(count(&success(outcome), "comments"), 1);
    let open = "[global]\nallow_restricted_comments = true\n";
    let (_, outcome) = call(&keep(open), &mut site, comments_call(KEY));
    assert_eq!(count(&success(outcome), "comments"), 2);
    let keep = keep(open);
    let (run, _) = keep.start(comments_call(KEY), creds(&keep), NOW);
    let (_, step) = keep.resume_with(run, Event::Document(Ok(json(&issue(KEY, "OPS")))), NOW);
    match step {
        Step::Call(request) => {
            assert!(request.query.contains(&("maxResults".to_owned(), "100".to_owned())))
        }
        Step::Finish(_) => panic!("finished"),
    }
}

#[test]
fn summary_prompt_holds_public_comments() {
    let mut site = Site::new().get("/rest/api/3/issue/OPS-1", &issue(KEY, "OPS")).get(
        "/rest/api/3/issue/OPS-1/comment",
        r#"{"comments": [{"id": "1"}, {"id": "2", "visibility": {"type": "role"}}]}"#,
    );
    let open = "[global]\nallow_restricted_comments = true\n";
    let summarize = ToolCall::SummarizeIssue(IssueKeyParams { key: KEY.to_owned() });
    let (_, outcome) = call(&keep(open), &mut site, summarize);
    match outcome {
        Outcome::Prompt { text, comments } => {
            assert!(text.starts_with("You are an expert at summarizing Jira issue comments.\n"));
            assert!(text.ends_with(
                "\n\nIssue: OPS-1\nComments:\n[\n  {\n    \"id\": \"1\"\n  }\n]"
            ));
            assert_eq!(comments.as_array().expect("array").len(), 1);
        }
        _ => panic!("no prompt"),
    }
}

#[test]
fn history_redacts_hidden_keys() {
    let mut site = Site::new()
        .get("/rest/api/3/issue/OPS-1", &issue(KEY, "OPS"))
        .get("/rest/api/3/issue/SEC-9", &issue("SEC-9", "SEC"))
        .get("/rest/api/3/issue/OPS-2", &issue("OPS-2", "OPS"))
        .get(
            "/rest/api/3/issue/OPS-1/changelog",
            r#"{"values": [{"items": [
                {"fromString": "SEC-9", "toString": "OPS-2"},
                {"from": "To Do", "to": "Gone-1"}
            ]}]}"#,
        );
    let history = ToolCall::IssueHistory(IssueHistoryParams { key: KEY.to_owned(), max_results: 5 });
    let (_, outcome) = call(&keep(HIDE_SEC), &mut site, history);
    let log = success(outcome);
    assert_eq!(text(&log, "values/0/items/0/fromString"), "[redacted]");
    assert_eq!(text(&log, "values/0/items/0/toString"), "OPS-2");
    assert_eq!(text(&log, "values/0/items/1/from"), "To Do");
    assert_eq!(site.asked("Get /rest/api/3/issue/SEC-9"), 1);
}

#[test]
fn history_serves_what_may_be_seen_of_both_lists() {
    let site = |log: &str| {
        Site::new()
            .get("/rest/api/3/issue/OPS-1", &issue(KEY, "OPS"))
            .get("/rest/api/3/issue/SEC-9", &issue("SEC-9", "SEC"))
            .get("/rest/api/3/issue/OPS-2", &issue("OPS-2", "OPS"))
            .get("/rest/api/3/issue/OPS-3", &issue("OPS-3", "OPS"))
            .get("/rest/api/3/issue/OPS-1/changelog", log)
    };
    let history =
        || ToolCall::IssueHistory(IssueHistoryParams { key: KEY.to_owned(), max_results: 5 });
    let mut both = site(
        r#"{"values": [{"items": [{"from": "OPS-2"}]}],
            "histories": [{"items": [{"from": "OPS-3", "to": "SEC-9"}]}]}"#,
    );
    let (_, outcome) = call(&keep(HIDE_SEC), &mut both, history());
    let log = success(outcome);
    assert_eq!(text(&log, "values/0/items/0/from"), "OPS-2");
    assert_eq!(text(&log, "histories/0/items/0/from"), "OPS-3");
    assert_eq!(text(&log, "histories/0/items/0/to"), "[redacted]");
    assert_eq!(both.asked("Get /rest/api/3/issue/OPS-3"), 1);

    let mut one = site(r#"{"histories": [{"items": [{"from": "OPS-3", "to": "SEC-9"}]}]}"#);
    let (_, outcome) = call(&keep(HIDE_SEC), &mut one, history());
    let log = success(outcome);
    assert_eq!(text(&log, "histories/0/items/0/from"), "OPS-3");
    assert_eq!(text(&log, "histories/0/items/0/to"), "[redacted]");
}

#[test]
fn linking_needs_both_issues() {
    let link = |inward: &str, outward: &str| {
        ToolCall::LinkIssues(LinkParams {
            link_type: "Blocks".to_owned(),
            inward_key: inward.to_owned(),
            outward_key: outward.to_owned(),
        })
    };
    let site = || {
        Site::new()
            .get("/rest/api/3/issue/OPS-1", &issue(KEY, "OPS"))
            .get("/rest/api/3/issue/OPS-2", &issue("OPS-2", "OPS"))
            .get("/rest/api/3/issue/SEC-1", &issue("SEC-1", "SEC"))
            .on(Method::Post, "/rest/api/3/issueLink", 201, "")
    };
    let keep = keep(HIDE_SEC);
    let mut s = site();
    let (_, outcome) = call(&keep, &mut s, link("OPS-1", "OPS-2"));
    assert_eq!(members(&success(outcome)), vec!["ok"]);
    assert_eq!(s.asked("Post /rest/api/3/issueLink"), 1);
    for (inward, outward) in [("OPS-1", "SEC-1"), ("SEC-1", "OPS-1")] {
        let mut s = site();
        let (_, outcome) = call(&keep, &mut s, link(inward, outward));
        assert_eq!(failure(outcome), "Issue SEC-1 is not accessible through this server");
        assert_eq!(s.asked("Post /rest/api/3/issueLink"), 0);
    }
}

#[test]
fn read_only_mode_sends_no_write() {
    let policy = "[global]\nread_only = true\n";
    let mut site = Site::new().get("/rest/api/3/issue/OPS-1", &issue(KEY, "OPS"));
    let keep = keep(policy);
    let comment =
        ToolCall::AddComment(AddCommentParams { key: KEY.to_owned(), body: "hi".to_owned() });
    let (_, outcome) = call(&keep, &mut site, comment);
    assert_eq!(failure(outcome), "Issue OPS-1 is not accessible through this server");
    let (_, outcome) = call(&keep, &mut site, create_call("OPS"));
    assert_eq!(failure(outcome), "Issue create in project OPS is not permitted by policy");
    assert!(site.log.iter().all(|l| l.starts_with("Get ")));
}

// --- the writing tools ------------------------------------------------------

fn create_call(project: &str) -> ToolCall {
    ToolCall::CreateIssue(CreateIssueParams {
        project_key: project.to_owned(),
        summary: "New".to_owned(),
        issue_type: "Bug".to_owned(),
        description: Some("text".to_owned()),
        labels: Some(vec!["a".to_owned()]),
        components: Some(vec!["c1".to_owned(), "c2".to_owned()]),
        priority: Some("High".to_owned()),
    })
}

#[test]
fn create_issue_goes_by_policy() {
    let mut site = Site::new().on(Method::Post, "/rest/api/3/issue", 201, r#"{"key": "OPS-9"}"#);
    let keep = keep(HIDE_SEC);
    let (_, outcome) = call(&keep, &mut site, create_call("OPS"));
    assert_eq!(text(&success(outcome), "key"), "OPS-9");
    let sent = &site.bodies[0];
    assert_eq!(text(sent, "fields/project/key"), "OPS");
    assert_eq!(text(sent, "fields/issuetype/name"), "Bug");
    assert_eq!(text(sent, "fields/description/type"), "doc");
    assert_eq!(text(sent, "fields/labels/0"), "a");
    assert_eq!(text(sent, "fields/components/1/name"), "c2");
    assert_eq!(text(sent, "fields/priority/name"), "High");
    let (run, outcome) = call(&keep, &mut site, create_call("SEC"));
    assert_eq!(failure(outcome), "Issue create in project SEC is not permitted by policy");
    assert_eq!(verdict(&run), Some(Verdict::Refused));
    assert_eq!(site.log.len(), 1);
}

#[test]
fn simple_writes_report_their_outcome() {
    let site = || {
        Site::new()
            .get("/rest/api/3/issue/OPS-1", &issue(KEY, "OPS"))
            .on(Method::Post, "/rest/api/3/issue/OPS-1/comment", 201, r#"{"id": "7"}"#)
            .on(Method::Post, "/rest/api/3/issue/OPS-1/transitions", 204, "")
            .on(Method::Post, "/rest/api/3/issue/OPS-1/watchers", 204, "")
            .on(Method::Put, "/rest/api/3/issue/OPS-1", 204, "")
            .get("/rest/api/3/issue/OPS-1/transitions", r#"{"transitions": []}"#)
    };
    let keep = keep(ALLOW);
    let key = || KEY.to_owned();
    let comment = ToolCall::AddComment(AddCommentParams { key: key(), body: "hi".to_owned() });
    assert_eq!(text(&success(call(&keep, &mut site(), comment).1), "id"), "7");
    let mut s = site();
    let transition = ToolCall::TransitionIssue(TransitionParams {
        key: key(),
        transition_id: "31".to_owned(),
        comment: None,
    });
    assert_eq!(text(&success(call(&keep, &mut s, transition).1), "key"), KEY);
    let assign = ToolCall::AssignIssue(AssignParams { key: key(), account_id: None });
    assert_eq!(text(&success(call(&keep, &mut s, assign).1), "key"), KEY);
    assert!(matches!(
        at(&s.bodies[1], "fields").get("assignee"),
        Some(Json::Null)
    ));
    let watch = ToolCall::AddWatcher(WatcherParams { key: key(), account_id: "acc".to_owned() });
    assert_eq!(members(&success(call(&keep, &mut s, watch).1)), vec!["ok"]);
    let list = ToolCall::ListTransitions(IssueKeyParams { key: key() });
    assert_eq!(count(&success(call(&keep, &mut s, list).1), "transitions"), 0);
    // Without the routes for writing, each says what failed.
    let poor = || Site::new().get("/rest/api/3/issue/OPS-1", &issue(KEY, "OPS"));
    let watch = ToolCall::AddWatcher(WatcherParams { key: key(), account_id: "acc".to_owned() });
    assert!(failure(call(&keep, &mut poor(), watch).1).starts_with("add_watcher failed: "));
    let list = ToolCall::ListTransitions(IssueKeyParams { key: key() });
    assert_eq!(
        failure(call(&keep, &mut poor(), list).1),
        "Issue OPS-1 is not accessible through this server"
    );
}

#[test]
fn uploads_are_decoded_and_capped() {
    let upload = |content: &str| {
        ToolCall::AddAttachment(AddAttachmentParams {
            key: KEY.to_owned(),
            filename: "a.txt".to_owned(),
            content_base64: content.to_owned(),
        })
    };
    let site = || {
        Site::new()
            .get("/rest/api/3/issue/OPS-1", &issue(KEY, "OPS"))
            .on(Method::Post, "/rest/api/3/issue/OPS-1/attachments", 200, r#"[{"id": "1"}]"#)
    };
    let keep = keep("[global]\nmax_attachment_bytes = 5\n");
    let (_, outcome) = call(&keep, &mut site(), upload(" aGVsbG8= "));
    assert_eq!(text(&success(outcome), "0/id"), "1");
    let (_, outcome) = call(&keep, &mut site(), upload("aGVsbG8h"));
    assert_eq!(failure(outcome), "attachment exceeds max_attachment_bytes");
    let (run, outcome) = call(&keep, &mut site(), upload("not base64"));
    assert_eq!(failure(outcome), "content_base64 is not valid base64");
    assert_eq!(verdict(&run), Some(Verdict::Refused));
    // What is sent are the bytes.
    let (run, _) = keep.start(upload("aGVsbG8="), creds(&keep), NOW);
    let (_, step) = keep.resume_with(run, Event::Document(Ok(json(&issue(KEY, "OPS")))), NOW);
    match step {
        Step::Call(Request { payload: Payload::File { data, .. }, .. }) => {
            assert_eq!(data, b"hello".to_vec())
        }
        _ => panic!("no upload"),
    }
}

// --- downloads --------------------------------------------------------------

fn download_call(id: &str) -> ToolCall {
    ToolCall::DownloadAttachment(DownloadAttachmentParams {
        key: KEY.to_owned(),
        attachment_id: id.to_owned(),
    })
}

fn download_site() -> Site {
    Site::new()
        .get(
            "/rest/api/3/issue/OPS-1",
            &issue_with(
                KEY,
                "OPS",
                r#", "attachment": [
                    {"id": "1", "filename": "a.txt", "size": 5, "content": "/content/1"},
                    {"id": 2, "size": 9, "content": "/content/1"},
                    {"id": "3", "content": "/content/1"},
                    {"id": "4", "size": 1},
                    {"id": "5", "size": 1, "content": "http://elsewhere.test/x"},
                    {"id": "6", "size": 1, "content": "/content/1"}
                ]"#,
            ),
        )
        .get("/content/1", "hello")
}

#[test]
fn downloads_are_served_in_base64() {
    let keep = keep("[global]\nmax_attachment_bytes = 8\n");
    let (_, outcome) = call(&keep, &mut download_site(), download_call("1"));
    let served = success(outcome);
    assert_eq!(text(&served, "content_base64"), "aGVsbG8=");
    assert_eq!(text(&served, "filename"), "a.txt");
    assert_eq!(at(&served, "size").as_u64(), Some(5));
}

#[test]
fn downloads_are_refused_before_they_begin() {
    let keep = keep("[global]\nmax_attachment_bytes = 8\n");
    let mut site = download_site();
    for (id, expected) in [
        ("2", "attachment exceeds max_attachment_bytes (9 bytes)"),
        ("3", "attachment exceeds max_attachment_bytes (size unknown)"),
        ("4", "attachment has no content URL"),
        ("5", "download failed: jira attachment download error"),
        ("9", "Issue OPS-1 is not accessible through this server"),
    ] {
        let (_, outcome) = call(&keep, &mut site, download_call(id));
        assert_eq!(failure(outcome), expected, "{id}");
    }
    assert_eq!(site.asked("Get /content/1"), 0);
}

#[test]
fn downloads_that_outgrow_the_cap_are_broken_off() {
    let keep = keep("[global]\nmax_attachment_bytes = 4\n");
    let (_, outcome) = call(&keep, &mut download_site(), download_call("6"));
    let text = failure(outcome);
    assert!(text.starts_with("download failed: "), "{text}");
    assert!(text.contains("exceeds"), "{text}");
}

// --- identity and secrets ---------------------------------------------------

const MINE: &str = r#"
default_action = "deny"
[[rule]]
name = "mine"
action = "allow"
[rule.match]
created_by_me = true
"#;

#[test]
fn identity_is_asked_for_first() {
    let site = |me: &str| {
        Site::new()
            .get("/rest/api/3/myself", me)
            .get("/rest/api/3/issue/OPS-1", &issue(KEY, "OPS"))
            .get("/rest/api/3/issue/OPS-1/comment", r#"{"comments": []}"#)
    };
    let mut mine = site(r#"{"accountId": "u1"}"#);
    let (_, outcome) = call(&keep(MINE), &mut mine, comments_call(KEY));
    assert_eq!(count(&success(outcome), "comments"), 0);
    assert_eq!(mine.log[0], "Get /rest/api/3/myself");
    for me in [r#"{"accountId": "u2"}"#, "{}"] {
        let (_, outcome) = call(&keep(MINE), &mut site(me), comments_call(KEY));
        assert_eq!(failure(outcome), "Issue OPS-1 is not accessible through this server");
    }
}

#[test]
fn local_tools_ask_nothing() {
    let keep = keep(MINE);
    let mut site = Site::new();
    let (run, outcome) = call(&keep, &mut site, ToolCall::McpServerInfo);
    assert_eq!(text(&success(outcome), "name"), "jirakeep");
    assert_eq!(run.tool(), Tool::McpServerInfo);
    let url = ToolCall::IssueUrl(IssueKeyParams { key: KEY.to_owned() });
    let (_, outcome) = call(&keep, &mut site, url);
    assert_eq!(text(&success(outcome), "url"), "http://jira.test/browse/OPS-1");
    assert!(site.log.is_empty());
}

#[test]
fn jira_server_info_names_the_site() {
    let mut site = Site::new().get("/rest/api/3/serverInfo", r#"{"version": "9"}"#);
    let (_, outcome) = call(&keep(ALLOW), &mut site, ToolCall::JiraServerInfo);
    assert_eq!(text(&success(outcome), "url"), SITE);
    let (_, outcome) = call(&keep(ALLOW), &mut Site::new(), ToolCall::JiraServerInfo);
    assert!(failure(outcome).starts_with("failed to fetch server info: "));
}

#[test]
fn outcomes_hold_no_credentials_and_no_rule_names() {
    let mut site = edit_site();
    let keep = keep(HIDE_SEC);
    let (_, step) = keep.start(info_call(&[KEY]), creds(&keep), NOW);
    match step {
        Step::Call(request) => match request.authorization {
            Authorization::Basic { token, .. } => assert_eq!(token, "MCPTESTTOKEN"),
            Authorization::Header(_) => panic!("header"),
        },
        Step::Finish(_) => panic!("finished"),
    }
    for keys in [["OPS-1"], ["SEC-1"]] {
        let (_, outcome) = call(&keep, &mut site, info_call(&keys));
        let shown = render(&success(outcome));
        for banned in ["MCPTESTTOKEN", "mcp-test@example.com", "hide-sec"] {
            assert!(!shown.contains(banned), "{banned} leaked: {shown}");
        }
    }
    let (_, outcome) = call(&keep, &mut site, ToolCall::McpServerInfo);
    assert!(!render(&success(outcome)).contains("hide-sec"));
}

#[test]
fn notes_hang_on_no_credentials() {
    let mut other = config(AuthModeCli::Basic, Some("someone@example.com"));
    other.api_key = Some("OTHERTOKEN".to_owned());
    let (first, second) = (keep(HIDE_SEC), server(other, HIDE_SEC));
    for keys in [["OPS-1"], ["SEC-1"], ["GONE-9"]] {
        let (a, _) = call(&first, &mut edit_site(), info_call(&keys));
        let (b, _) = call(&second, &mut edit_site(), info_call(&keys));
        assert_eq!(a.cell().snapshot(), b.cell().snapshot());
    }
    let (run, _) = call(&second, &mut edit_site(), info_call(&[KEY]));
    let (verdict, rule, keys, _) = run.cell().snapshot();
    assert_eq!(verdict, Some(Verdict::Served));
    assert_eq!(rule.as_deref(), Some("default"));
    assert!(keys.is_empty());
}

#[test]
fn a_finished_call_stays_finished() {
    let keep = keep(ALLOW);
    let (run, step) = keep.start(ToolCall::McpServerInfo, creds(&keep), NOW);
    assert!(matches!(step, Step::Finish(Outcome::Success(_))));
    let (_, step) = keep.resume(run, Reply::Data(vec![1]), NOW);
    assert!(matches!(step, Step::Finish(Outcome::Failure(_))));
}

#[test]
fn replies_of_another_form_are_errors() {
    let keep = keep(ALLOW);
    let (run, _) = keep.start(ToolCall::JiraServerInfo, creds(&keep), NOW);
    let (_, step) = keep.resume(run, Reply::Data(vec![1]), NOW);
    match step {
        Step::Finish(outcome) => {
            assert!(failure(outcome).starts_with("failed to fetch server info: "))
        }
        Step::Call(_) => panic!("not finished"),
    }
    assert!(matches!(
        Event::Change(Ok(())).into_document(),
        Err(ClientError::Unexpected)
    ));
    assert!(matches!(
        Event::Document(Err(ClientError::NoAccountId)).into_data(),
        Err(ClientError::NoAccountId)
    ));
    assert!(Event::Document(Ok(Json::Null)).into_change().is_err());
}

#[test]
fn outcomes_are_told_as_text() {
    let url = ToolCall::IssueUrl(IssueKeyParams { key: KEY.to_owned() });
    let (_, outcome) = call(&keep(ALLOW), &mut Site::new(), url);
    assert!(!outcome.is_error());
    assert_eq!(
        outcome.content(),
        "{\n  \"key\": \"OPS-1\",\n  \"url\": \"http://jira.test/browse/OPS-1\"\n}"
    );
    let (_, outcome) = call(&keep(ALLOW), &mut Site::new(), comments_call("GONE-1"));
    assert!(outcome.is_error());
    assert_eq!(outcome.content(), "Issue GONE-1 is not accessible through this server");
}

#[test]
fn issue_info_serves_in_the_order_of_the_keys() {
    let policy = r#"
default_action = "allow"
[[rule]]
name = "brief"
action = "restrict"
capabilities = ["summary"]
[rule.match]
projects = ["BRIEF"]
"#;
    let mut site = edit_site().get("/rest/api/3/issue/BRIEF-1", &issue("BRIEF-1", "BRIEF"));
    let (_, outcome) =
        call(&keep(policy), &mut site, info_call(&["BRIEF-1", "GONE-1", "OPS-1", "BRIEF-1"]));
    let shown = success(outcome);
    assert_eq!(text(&shown, "issues/0/key"), "BRIEF-1");
    assert_eq!(at(&shown, "issues/0/_redacted"), &Json::Bool(true));
    assert_eq!(text(&shown, "issues/1/key"), "OPS-1");
    assert_eq!(at(&shown, "issues/1/_redacted"), &Json::Null);
    assert_eq!(text(&shown, "issues/2/key"), "BRIEF-1");
    assert_eq!(count(&shown, "restricted"), 1);
}
