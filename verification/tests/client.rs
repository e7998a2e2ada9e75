//! The client: which requests it sends and how it reads replies.

use jirakeep::client::{
    plain_to_adf, urlencoding_path, ApiVersion, AuthMode, Authorization, Credentials, JiraClient,
    Method, Payload, Request, SearchQuery, SetupError, Transfer,
};
use jirakeep::json::Json;
use jirakeep::reply::{
    check_error, parse_response, settle, ClientError, Download, Reply,
};

const TOKEN: &str = "SUPERSECRETTOKEN123";
const EMAIL: &str = "agent@example.com";
const UA: &str = "jirakeep-test/0.0.0 (+test)";
const SITE: &str = "http://jira.test";

fn creds() -> Credentials {
    Credentials { email: EMAIL.to_owned(), token: TOKEN.to_owned() }
}

fn basic_client() -> JiraClient {
    JiraClient::with_auth_mode(SITE, UA, AuthMode::Basic).expect("client")
}

fn bearer_client() -> JiraClient {
    JiraClient::with_auth_mode(SITE, UA, AuthMode::Bearer).expect("client")
}

fn https_client() -> JiraClient {
    JiraClient::new("https://example.atlassian.net", "jirakeep/0.0.0 (+test)")
        .expect("client builds")
}

fn answer(status: u16, body: &str) -> Reply {
    Reply::Answer { status, body: body.to_owned() }
}

fn json(text: &str) -> Json {
    Json::parse(text).expect("json")
}

/// The member at a path; names and indices are separated by slashes.
fn at<'a>(value: &'a Json, path: &str) -> &'a Json {
    let mut here = value;
    for name in path.split('/') {
        here = match here {
            Json::Array(items) => &items[name.parse::<usize>().expect("index")],
            other => other.get(name).unwrap_or(&Json::Null),
        };
    }
    here
}

fn text<'a>(value: &'a Json, path: &str) -> &'a str {
    at(value, path).as_str().expect("text")
}

fn document(request: &Request) -> &Json {
    match &request.payload {
        Payload::Document(v) => v,
        _ => panic!("no document"),
    }
}

fn pair(a: &str, b: &str) -> (String, String) {
    (a.to_owned(), b.to_owned())
}

/// What a download comes to when the site sends these chunks.
fn download(
    request: &Request,
    status: u16,
    declared: Option<u64>,
    chunks: &[Vec<u8>],
) -> Result<Vec<u8>, ClientError> {
    let limit = match request.transfer {
        Transfer::Bytes { limit } => limit,
        Transfer::Text => panic!("not a download"),
    };
    let mut download = Download::begin(status, declared, limit)?;
    for chunk in chunks {
        download.push(chunk)?;
    }
    Ok(download.finish())
}

#[test]
fn trims_trailing_slash() {
    let c = JiraClient::new("https://example.atlassian.net/", "jirakeep/0.0.0 (+test)")
        .expect("builds");
    assert_eq!(c.base_url(), "https://example.atlassian.net");
    assert_eq!(c.api_url(), "https://example.atlassian.net/rest/api/3");
}

#[test]
fn api_version_defaults_by_auth_mode() {
    let c = JiraClient::with_auth_mode(
        "https://jira.example.com",
        "jirakeep/0.0.0 (+test)",
        AuthMode::Bearer,
    )
    .expect("builds");
    assert_eq!(c.api_version(), ApiVersion::V2);
    assert_eq!(c.api_url(), "https://jira.example.com/rest/api/2");
    let c = JiraClient::with_auth_mode(
        "https://example.atlassian.net",
        "jirakeep/0.0.0 (+test)",
        AuthMode::Basic,
    )
    .expect("builds");
    assert_eq!(c.api_version(), ApiVersion::V3);
    assert_eq!(c.api_url(), "https://example.atlassian.net/rest/api/3");
}

#[test]
fn explicit_api_version_overrides_auth_mode_default() {
    // Cloud OAuth bearer: Bearer auth on the v3 surface.
    let c = JiraClient::with_api_version(
        "https://example.atlassian.net",
        "jirakeep/0.0.0 (+test)",
        AuthMode::Bearer,
        ApiVersion::V3,
    )
    .expect("builds");
    assert_eq!(c.api_url(), "https://example.atlassian.net/rest/api/3");
}

#[test]
fn blank_user_agent_is_rejected() {
    let e = JiraClient::new("https://example.atlassian.net", "  ").unwrap_err();
    assert_eq!(e, SetupError::BlankUserAgent);
    assert_eq!(
        e.message(),
        "jira client: user_agent must name the calling program, and was blank"
    );
}

#[test]
fn empty_base_url_is_rejected() {
    for base in ["", "/", "//"] {
        let outcome = JiraClient::new(base, UA);
        if let Err(e) = outcome {
            assert_eq!(e, SetupError::EmptyBaseUrl, "{base:?}");
        } else {
            panic!("{base:?} was accepted");
        }
    }
    assert_eq!(
        SetupError::EmptyBaseUrl.message(),
        "jira client: base_url must not be empty"
    );
}

#[test]
fn content_url_relative_resolves_against_base() {
    let c = https_client();
    let url = c
        .same_origin_content_url("/secure/attachment/10001/notes.txt")
        .expect("relative content URL resolves");
    assert_eq!(
        url.text,
        "https://example.atlassian.net/secure/attachment/10001/notes.txt"
    );
    let url = c
        .same_origin_content_url("secure/attachment/10001/notes.txt")
        .expect("relative content URL without leading slash resolves");
    assert_eq!(
        url.text,
        "https://example.atlassian.net/secure/attachment/10001/notes.txt"
    );
}

#[test]
fn content_url_same_origin_absolute_is_allowed() {
    let c = https_client();
    let url = c
        .same_origin_content_url("https://example.atlassian.net/secure/attachment/1/a.txt")
        .expect("same-origin absolute content URL is allowed");
    assert_eq!(url.host.as_deref(), Some("example.atlassian.net"));
}

#[test]
fn content_url_default_port_matches_explicit_port() {
    let c = JiraClient::new(
        "https://example.atlassian.net:443",
        "jirakeep/0.0.0 (+test)",
    )
    .expect("client builds");
    assert!(c
        .same_origin_content_url("https://example.atlassian.net/secure/attachment/1/a.txt")
        .is_ok());
}

#[test]
fn content_url_foreign_host_is_refused_generically() {
    let c = https_client();
    let err = match c.same_origin_content_url("https://attacker.example/collect") {
        Ok(_) => panic!("foreign host must be refused"),
        Err(e) => e,
    };
    let msg = err.message();
    assert_eq!(msg, "jira attachment download error");
    assert!(!msg.contains("attacker.example"), "target leaked: {msg}");
}

#[test]
fn content_url_http_downgrade_is_refused_when_base_is_https() {
    let c = https_client();
    assert!(c
        .same_origin_content_url("http://example.atlassian.net/secure/attachment/1/a.txt")
        .is_err());
}

#[test]
fn content_url_other_port_is_refused() {
    let c = https_client();
    assert!(c
        .same_origin_content_url("https://example.atlassian.net:8443/secure/attachment/1/a.txt")
        .is_err());
}

#[test]
fn plain_to_adf_wraps_text() {
    let v = plain_to_adf("hello");
    assert_eq!(text(&v, "type"), "doc");
    assert_eq!(text(&v, "content/0/content/0/text"), "hello");
}

#[test]
fn credentials_debug_redacts() {
    let c = Credentials { email: "a@b.c".to_owned(), token: "secret".to_owned() };
    let s = c.debug_text();
    assert!(!s.contains("secret"));
    assert!(!s.contains("a@b.c"));
}

#[test]
fn myself_and_account_id() {
    let c = basic_client();
    let request = c.myself(&creds());
    assert_eq!(request.method, Method::Get);
    assert_eq!(request.url, "http://jira.test/rest/api/3/myself");
    let me = JiraClient::document(answer(
        200,
        r#"{"accountId": "acc-1", "displayName": "Agent"}"#,
    ))
    .expect("myself");
    assert_eq!(text(&me, "accountId"), "acc-1");
    assert_eq!(JiraClient::account_id(Ok(me)).unwrap(), "acc-1");
}

#[test]
fn account_id_is_missed_loudly() {
    let e = JiraClient::account_id(Ok(json("{}"))).unwrap_err();
    assert!(matches!(e, ClientError::NoAccountId));
    let e = JiraClient::account_id(Err(ClientError::Unexpected)).unwrap_err();
    assert!(matches!(e, ClientError::Unexpected));
}

#[test]
fn get_issue() {
    let c = basic_client();
    let request = c.get_issue(&creds(), "PROJ-1", Some("summary,project"));
    assert_eq!(request.url, "http://jira.test/rest/api/3/issue/PROJ-1");
    assert_eq!(request.query, vec![pair("fields", "summary,project")]);
    let issue = JiraClient::document(answer(
        200,
        r#"{"key": "PROJ-1", "id": "10001",
            "fields": {"summary": "hello", "project": {"key": "PROJ"}}}"#,
    ))
    .unwrap();
    assert_eq!(text(&issue, "key"), "PROJ-1");
    assert_eq!(text(&issue, "fields/summary"), "hello");
}

#[test]
fn download_attachment_within_cap_and_unbounded() {
    let c = basic_client();
    // Exactly at the cap is allowed.
    let request = c
        .download_attachment_bytes(&creds(), "/attachments/content/1", Some(512))
        .ok()
        .expect("planned");
    assert_eq!(request.url, "http://jira.test/attachments/content/1");
    let bytes = download(&request, 200, Some(512), &[vec![7u8; 512]]).unwrap();
    assert_eq!(bytes.len(), 512);
    // No cap (policy max_attachment_bytes = 0) stays unlimited.
    let request = c
        .download_attachment_bytes(&creds(), "/attachments/content/1", None)
        .ok()
        .expect("planned");
    let bytes = download(&request, 200, Some(512), &[vec![7u8; 512]]).unwrap();
    assert_eq!(bytes, vec![7u8; 512]);
}

#[test]
fn download_attachment_refuses_body_over_cap() {
    // Even if attachment metadata understated the size, the real byte
    // count is what the cap is enforced against.
    let c = basic_client();
    let request = c
        .download_attachment_bytes(&creds(), "/attachments/content/2", Some(1024))
        .ok()
        .expect("planned");
    let err = download(&request, 200, Some(4096), &[vec![7u8; 4096]]).unwrap_err();
    let msg = err.message();
    assert!(msg.contains("exceeds"), "unexpected error: {msg}");
    assert!(!msg.contains(TOKEN), "token leaked into error: {msg}");
}

#[test]
fn download_attachment_aborts_stream_without_content_length() {
    // No declared length: the cap must still hold, enforced against the bytes
    // actually received.
    let c = basic_client();
    let request = c
        .download_attachment_bytes(&creds(), "/attachments/content/3", Some(1024))
        .ok()
        .expect("planned");
    let chunks: Vec<Vec<u8>> = (0..8).map(|_| vec![b'x'; 1024]).collect();
    let err = download(&request, 200, None, &chunks).unwrap_err();
    let msg = err.message();
    assert!(msg.contains("exceeds"), "unexpected error: {msg}");
}

#[test]
fn download_keeps_its_bytes_when_a_chunk_is_refused() {
    let mut d = Download::begin(200, None, Some(3)).ok().expect("begins");
    assert!(d.push(&vec![1, 2]).is_ok());
    assert!(matches!(d.push(&vec![3, 4]), Err(ClientError::OverLimit { limit: 3 })));
    assert!(d.push(&vec![3]).is_ok());
    assert_eq!(d.finish(), vec![1, 2, 3]);
    assert!(matches!(
        Download::begin(404, None, None),
        Err(ClientError::DownloadStatus { status: 404 })
    ));
    assert!(matches!(
        Download::begin(200, Some(4), Some(3)),
        Err(ClientError::TooLong { declared: 4, limit: 3 })
    ));
}

#[test]
fn search_jql() {
    let c = basic_client();
    let request = c.search(
        &creds(),
        &SearchQuery {
            jql: "project = PROJ".to_owned(),
            fields: vec!["summary".to_owned()],
            max_results: 10,
            next_page_token: None,
            start_at: None,
        },
    );
    assert_eq!(request.method, Method::Post);
    assert_eq!(request.url, "http://jira.test/rest/api/3/search/jql");
    let out = JiraClient::document(answer(
        200,
        r#"{"issues": [{"key": "PROJ-1", "fields": {"summary": "a"}}], "nextPageToken": "tok2"}"#,
    ))
    .unwrap();
    assert_eq!(at(&out, "issues").as_array().unwrap().len(), 1);
    assert_eq!(text(&out, "nextPageToken"), "tok2");
}

#[test]
fn search_falls_back_to_legacy_on_404() {
    let c = basic_client();
    let query = SearchQuery {
        jql: "order by created".to_owned(),
        fields: vec!["summary".to_owned()],
        max_results: 50,
        next_page_token: None,
        start_at: Some(0),
    };
    let first = JiraClient::document(answer(404, r#"{"errorMessages": ["not found"]}"#));
    assert!(c.search_again(false, &first));
    assert!(!c.search_again(true, &first));
    let request = c.offset_search(&creds(), &query);
    assert_eq!(request.url, "http://jira.test/rest/api/3/search");
    assert_eq!(at(document(&request), "startAt").as_u64(), Some(0));
    let out = JiraClient::document(answer(
        200,
        r#"{"issues": [{"key": "LEG-1"}], "startAt": 0, "maxResults": 50, "total": 1}"#,
    ));
    assert!(!c.search_again(false, &out));
    assert_eq!(text(&out.unwrap(), "issues/0/key"), "LEG-1");
}

#[test]
fn search_on_the_offset_surface_is_not_repeated() {
    let c = bearer_client();
    let missing = JiraClient::document(answer(404, "{}"));
    assert!(!c.search_again(false, &missing));
}

#[test]
fn add_comment() {
    let c = basic_client();
    let request = c.add_comment(&creds(), "PROJ-1", "hi", None);
    assert_eq!(request.method, Method::Post);
    assert_eq!(request.url, "http://jira.test/rest/api/3/issue/PROJ-1/comment");
    let out = JiraClient::document(answer(201, r#"{"id": "100", "body": {"type": "doc"}}"#))
        .unwrap();
    assert_eq!(text(&out, "id"), "100");
}

#[test]
fn comment_carries_its_visibility() {
    let request = basic_client().add_comment(&creds(), "P-1", "hi", None);
    assert_eq!(text(document(&request), "body/content/0/content/0/text"), "hi");
    assert!(document(&request).get("visibility").is_none());
    let role = json(r#"{"type": "role"}"#);
    let request = bearer_client().add_comment(&creds(), "P-1", "hi", Some(role));
    assert_eq!(text(document(&request), "visibility/type"), "role");
}

#[test]
fn download_attachment_relative_and_same_origin_urls() {
    let c = basic_client();
    // A relative content URL resolves against the (here: http) base URL.
    let request = c
        .download_attachment_bytes(&creds(), "/secure/attachment/10001/notes.txt", None)
        .ok()
        .expect("relative download");
    assert_eq!(request.url, "http://jira.test/secure/attachment/10001/notes.txt");
    let bytes = download(&request, 200, None, &[b"hello".to_vec()]).unwrap();
    assert_eq!(bytes, b"hello");
    // An absolute content URL on the same origin is honored too.
    let absolute = format!("{SITE}/secure/attachment/10001/notes.txt");
    let request = c
        .download_attachment_bytes(&creds(), &absolute, None)
        .ok()
        .expect("same-origin absolute download");
    assert_eq!(request.url, "http://jira.test/secure/attachment/10001/notes.txt");
}

#[test]
fn download_attachment_never_contacts_a_foreign_host() {
    let c = basic_client();
    let err = match c.download_attachment_bytes(&creds(), "http://foreign.test/collect", None) {
        Ok(_) => panic!("off-origin content URL must be refused"),
        Err(e) => e,
    };
    let msg = err.message();
    assert!(!msg.contains(TOKEN), "token leaked into error: {msg}");
    assert!(!msg.contains("foreign.test"), "refusal echoed the foreign URL: {msg}");
}

#[test]
fn bearer_auth_sends_authorization_header() {
    let c = bearer_client();
    // Bearer defaults to the DC surface: /rest/api/2.
    let request = c.myself(&Credentials { email: String::new(), token: TOKEN.to_owned() });
    assert_eq!(request.url, "http://jira.test/rest/api/2/myself");
    match &request.authorization {
        Authorization::Header(value) => assert_eq!(value, &format!("Bearer {TOKEN}")),
        Authorization::Basic { .. } => panic!("basic"),
    }
    let me = JiraClient::document(answer(200, r#"{"accountId": "dc-user"}"#)).unwrap();
    assert_eq!(text(&me, "accountId"), "dc-user");
}

#[test]
fn basic_auth_sends_email_and_token() {
    match basic_client().myself(&creds()).authorization {
        Authorization::Basic { email, token } => {
            assert_eq!(email, EMAIL);
            assert_eq!(token, TOKEN);
        }
        Authorization::Header(_) => panic!("header"),
    }
}

#[test]
fn search_v2_uses_offset_paging_and_ignores_page_token() {
    let c = bearer_client();
    let request = c.search(
        &creds(),
        &SearchQuery {
            jql: "project = DC".to_owned(),
            fields: vec!["summary".to_owned()],
            max_results: 10,
            next_page_token: Some("stale-token".to_owned()),
            start_at: Some(5),
        },
    );
    assert_eq!(request.url, "http://jira.test/rest/api/2/search");
    // startAt is sent, nextPageToken never enters the payload even when a
    // caller supplies one.
    let body = document(&request);
    assert_eq!(text(body, "jql"), "project = DC");
    assert_eq!(at(body, "maxResults").as_u64(), Some(10));
    assert_eq!(text(body, "fields/0"), "summary");
    assert_eq!(at(body, "startAt").as_u64(), Some(5));
    match body {
        Json::Object(members) => assert_eq!(members.entries.len(), 4),
        _ => panic!("no object"),
    }
    let out = JiraClient::document(answer(
        200,
        r#"{"issues": [{"key": "DC-6", "fields": {"summary": "s"}}],
            "startAt": 5, "maxResults": 10, "total": 42}"#,
    ))
    .unwrap();
    assert_eq!(text(&out, "issues/0/key"), "DC-6");
    assert!(out.get("nextPageToken").is_none());
}

#[test]
fn error_body_does_not_echo_token() {
    let c = basic_client();
    let _ = c.get_issue(&creds(), "X-1", None);
    let err = JiraClient::document(answer(401, r#"{"errorMessages": ["Unauthorized"]}"#))
        .unwrap_err();
    let msg = err.message();
    assert!(!msg.contains(TOKEN), "token leaked into error: {msg}");
    assert!(msg.contains("401") || msg.contains("Unauthorized"));
}

#[test]
fn server_info_embeds_base_url() {
    let c = basic_client();
    assert_eq!(c.server_info(&creds()).url, "http://jira.test/rest/api/3/serverInfo");
    let info = c
        .server_info_from(JiraClient::document(answer(
            200,
            r#"{"serverTitle": "Jira", "version": "9.0.0"}"#,
        )))
        .unwrap();
    assert_eq!(text(&info, "url"), SITE);
    assert_eq!(text(&info, "version"), "9.0.0");
}

#[test]
fn a_success_that_is_not_json_is_an_error() {
    let err = parse_response(200, "<html>").unwrap_err();
    assert!(matches!(err, ClientError::NotJson { status: 200 }));
    assert!(parse_response(200, "{}").is_ok());
    assert!(check_error(204, &None, None).is_ok());
    assert!(check_error(500, &None, None).is_err());
    assert!(matches!(
        settle(503, None, None),
        Err(ClientError::Status { status: 503, .. })
    ));
    assert!(settle(200, Some(Json::Null), None).is_ok());
}

#[test]
fn changes_need_no_body() {
    assert!(JiraClient::send_json_empty_ok(answer(204, "")).is_ok());
    assert!(JiraClient::send_json_empty_ok(answer(200, "  ")).is_ok());
    assert!(JiraClient::send_json_empty_ok(answer(200, "{}")).is_ok());
    assert!(JiraClient::send_json_empty_ok(answer(200, "oops")).is_err());
    assert!(JiraClient::send_json_empty_ok(answer(403, "")).is_err());
    assert!(JiraClient::watcher_added(answer(200, "oops")).is_ok());
    assert!(JiraClient::watcher_added(answer(403, "{}")).is_err());
    assert!(matches!(
        JiraClient::send_json_empty_ok(Reply::Failed("timed out".to_owned())),
        Err(ClientError::Transport(_))
    ));
    assert!(matches!(
        JiraClient::document(Reply::Data(vec![1])),
        Err(ClientError::Unexpected)
    ));
    assert!(matches!(
        JiraClient::data(answer(200, "{}")),
        Err(ClientError::Unexpected)
    ));
}

#[test]
fn favourite_filters_are_a_list() {
    let filters = JiraClient::favourite_filters_from(Ok(json(r#"[{"id": "1"}]"#))).unwrap();
    assert_eq!(filters.len(), 1);
    let wrapped = JiraClient::favourite_filters_from(Ok(json(r#"{"values": [1, 2]}"#))).unwrap();
    assert_eq!(wrapped.len(), 2);
    assert!(matches!(
        JiraClient::favourite_filters_from(Ok(json("{}"))),
        Err(ClientError::NotAFilterList)
    ));
}

#[test]
fn attachments_of_an_issue() {
    let items = JiraClient::list_attachments_from(Ok(json(
        r#"{"fields": {"attachment": [{"id": "1"}, {"id": "2"}]}}"#,
    )))
    .unwrap();
    assert_eq!(items.len(), 2);
    assert!(JiraClient::list_attachments_from(Ok(json("{}"))).unwrap().is_empty());
    assert!(JiraClient::list_attachments_from(Err(ClientError::Unexpected)).is_err());
}

#[test]
fn path_segments_are_escaped() {
    assert_eq!(urlencoding_path("PROJ-1_a.b"), "PROJ-1_a.b");
    assert_eq!(urlencoding_path("a~b"), "a%7Eb");
    assert_eq!(urlencoding_path("a/b ?#"), "a%2Fb%20%3F%23");
    assert_eq!(urlencoding_path("é"), "%C3%A9");
    assert_eq!(
        basic_client().get_issue(&creds(), "../x", None).url,
        "http://jira.test/rest/api/3/issue/..%2Fx"
    );
}

#[test]
fn transition_carries_its_comment() {
    let request = basic_client().transition_issue(&creds(), "P-1", "31", None, Some("done"));
    assert_eq!(request.url, "http://jira.test/rest/api/3/issue/P-1/transitions");
    assert_eq!(text(document(&request), "transition/id"), "31");
    let request = basic_client().update_issue(&creds(), "P-1", json(r#"{"summary": "x"}"#));
    assert_eq!(request.method, Method::Put);
    assert_eq!(text(document(&request), "fields/summary"), "x");
}

#[test]
fn uploads_skip_the_token_check() {
    let request = basic_client().add_attachment(&creds(), "P-1", "a.txt", vec![1, 2]);
    assert_eq!(request.url, "http://jira.test/rest/api/3/issue/P-1/attachments");
    assert!(request.headers.contains(&pair("X-Atlassian-Token", "no-check")));
    match request.payload {
        Payload::File { filename, data } => {
            assert_eq!(filename, "a.txt");
            assert_eq!(data, vec![1, 2]);
        }
        _ => panic!("no file"),
    }
}

#[test]
fn search_falls_back_on_the_status_alone() {
    let c = basic_client();
    let odd = JiraClient::document(answer(400, r#"{"errorMessages": ["no field 404"]}"#));
    assert!(!c.search_again(false, &odd));
    match odd {
        Err(e) => assert_eq!(e.message(), "jira error (HTTP 400): no field 404"),
        Ok(_) => panic!("no error"),
    }
    let broken: Result<Json, ClientError> = Err(ClientError::Transport("port 404".to_owned()));
    assert!(!c.search_again(false, &broken));
}

#[test]
fn watchers_are_sent_as_json_strings() {
    let request = basic_client().add_watcher(&creds(), "P-1", "5b:\"1\\");
    assert_eq!(request.url, "http://jira.test/rest/api/3/issue/P-1/watchers");
    let sent = document(&request);
    assert_eq!(sent.as_str(), Some("5b:\"1\\"));
    assert_eq!(sent.pretty(), r#""5b:\"1\\""#);
}

#[test]
fn escaping_keeps_texts_apart() {
    let texts = ["P-1", "P 1", "P%201", "P/1", "P%2F1", "\u{e9}", "%C3%A9", ""];
    for a in texts {
        for b in texts {
            assert_eq!(urlencoding_path(a) == urlencoding_path(b), a == b);
        }
    }
    assert_eq!(urlencoding_path("Ab_9.z-1"), "Ab_9.z-1");
}

#[test]
fn a_blob_address_has_the_origin_inside_it() {
    for base in ["blob:https://example.atlassian.net", "blob:blob:https://example.atlassian.net"] {
        let c = JiraClient::new(base, "test-agent").ok().unwrap();
        let url = c.same_origin_content_url("/secure/attachment/1").unwrap();
        assert_eq!(url.text, format!("{base}/secure/attachment/1"));
        assert_eq!(url.origin.as_deref(), Some("https://example.atlassian.net"));
        assert!(c.same_origin_content_url("https://example.atlassian.net/x").is_ok());
        assert!(c.same_origin_content_url("https://other.example/x").is_err());
    }
    let c = JiraClient::new("blob:nothing", "test-agent").ok().unwrap();
    assert!(c.same_origin_content_url("/secure/attachment/1").is_err());
}
