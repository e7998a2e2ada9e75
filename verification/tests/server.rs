//! The server: configuration, tools and credentials.

use jirakeep::audit::{
    digest_text, policy_hash_of, timestamp, AuditCell, AuditConfig, AuditConfigError, AuditEvent,
    AuditSink, AuditState, FailMode, Verdict,
};
use jirakeep::client::{ApiVersion, AuthMode};
use jirakeep::config::{
    open_to_others, read_secret_file, AuthModeCli, Cli, ConfigError, Secret, TokenCustody,
    Transport,
};
use jirakeep::guard::Guard;
use jirakeep::json::Json;
use jirakeep::manual::{render_environment, render_man, render_synopsis, ManualOption};
use jirakeep::policy::Policy;
use jirakeep::reply::Reply;
use jirakeep::server::{jira_client, CredentialsError, JiraKeep, StartError};
use jirakeep::tools::{default_max, list_tools, Tool};

fn cli(args: &[&str]) -> Cli {
    let mut cli = Cli {
        jira_server: "https://example.atlassian.net".to_owned(),
        auth_mode: AuthModeCli::Basic,
        api_version: None,
        transport: Transport::Http,
        host: "127.0.0.1".to_owned(),
        port: 8000,
        api_key_header: "ApiKey".to_owned(),
        email_header: "X-Atlassian-Email".to_owned(),
        api_key: None,
        api_key_file: None,
        email: None,
        email_file: None,
        read_only: false,
        policy: None,
        audit_config: None,
    };
    for pair in args.chunks(2) {
        let value = pair[1].to_owned();
        match pair[0] {
            "--jira-server" => cli.jira_server = value,
            "--transport" => cli.transport = Transport::Stdio,
            "--api-key" => cli.api_key = Some(value),
            "--api-key-file" => cli.api_key_file = Some(value),
            "--email" => cli.email = Some(value),
            "--email-file" => cli.email_file = Some(value),
            "--auth-mode" => cli.auth_mode = AuthModeCli::Bearer,
            "--policy" => cli.policy = Some(value),
            other => panic!("{other}"),
        }
    }
    cli
}

fn keep(cli: Cli, policy: Policy) -> Result<JiraKeep, StartError> {
    let guard = Guard::new(policy);
    let jira = jira_client(&cli).expect("client");
    JiraKeep::new(cli, guard, jira, None, None)
}

fn started(cli: Cli, policy: Policy) -> JiraKeep {
    match keep(cli, policy) {
        Ok(keep) => keep,
        Err(e) => panic!("{}", e.message()),
    }
}

fn test_server(read_only: bool) -> JiraKeep {
    let mut cli = cli(&[]);
    cli.read_only = read_only;
    let policy = cli.tighten(Policy::default());
    started(cli, policy)
}

fn names(keep: &JiraKeep) -> Vec<String> {
    keep.tools().iter().map(|t| t.name().to_owned()).collect()
}

fn at<'a>(value: &'a Json, path: &str) -> &'a Json {
    let mut here = value;
    for name in path.split('/') {
        here = here.get(name).unwrap_or(&Json::Null);
    }
    here
}

// --- configuration ----------------------------------------------------------

#[test]
fn http_default_is_per_request() {
    let cli = cli(&["--jira-server", "https://example.atlassian.net"]);
    let tok = cli.resolve_token_custody(None).unwrap();
    assert!(matches!(tok, TokenCustody::PerRequest));
    assert!(cli.resolve_email(&tok, None).unwrap().is_none());
}

#[test]
fn stdio_requires_token() {
    let cli = cli(&[
        "--jira-server",
        "https://example.atlassian.net",
        "--transport",
        "stdio",
    ]);
    assert!(matches!(cli.resolve_token_custody(None), Err(ConfigError::NoToken)));
}

#[test]
fn stdio_token_requires_email() {
    let cli = cli(&[
        "--jira-server",
        "https://example.atlassian.net",
        "--transport",
        "stdio",
        "--api-key",
        "tok",
    ]);
    let tok = cli.resolve_token_custody(None).unwrap();
    assert!(matches!(cli.resolve_email(&tok, None), Err(ConfigError::NoEmail)));
}

#[test]
fn stdio_with_token_and_email() {
    let cli = cli(&[
        "--jira-server",
        "https://example.atlassian.net",
        "--transport",
        "stdio",
        "--api-key",
        "tok",
        "--email",
        "user@example.com",
    ]);
    let tok = cli.resolve_token_custody(None).unwrap();
    assert!(matches!(tok, TokenCustody::Server(_)));
    assert_eq!(
        cli.resolve_email(&tok, None).unwrap().as_deref(),
        Some("user@example.com")
    );
}

#[test]
fn debug_redacts_secrets() {
    let cli = cli(&[
        "--jira-server",
        "https://example.atlassian.net",
        "--api-key",
        "super-secret",
        "--email",
        "user@example.com",
    ]);
    let s = cli.debug_text();
    assert!(!s.contains("super-secret"));
    assert!(!s.contains("user@example.com"));
    assert!(s.contains("<redacted>"));
}

#[test]
fn secrets_come_from_one_place() {
    let both = cli(&["--api-key", "a", "--api-key-file", "/t"]);
    assert!(matches!(
        both.resolve_token_custody(Some("b".to_owned())),
        Err(ConfigError::TokenTwice)
    ));
    let file = cli(&["--api-key-file", "/t", "--email", "e@x", "--email-file", "/e"]);
    assert_eq!(file.token_file(), Some("/t"));
    let tok = file.resolve_token_custody(Some("tok\n".to_owned())).unwrap();
    assert!(matches!(&tok, TokenCustody::Server(t) if t == "tok"));
    assert!(matches!(
        file.resolve_email(&tok, Some("e".to_owned())),
        Err(ConfigError::EmailTwice)
    ));
    let mail = cli(&["--api-key-file", "/t", "--email-file", "/e"]);
    let email = mail.resolve_email(&tok, Some(" e@x \n".to_owned())).unwrap();
    assert_eq!(email.as_deref(), Some("e@x"));
    assert!(matches!(
        mail.resolve_token_custody(None),
        Err(ConfigError::Unreadable { secret: Secret::Token, .. })
    ));
    assert!(matches!(
        read_secret_file(Secret::Email, "/e", Some(" \n".to_owned())),
        Err(ConfigError::Blank { secret: Secret::Email, .. })
    ));
    assert!(open_to_others(0o644));
    assert!(!open_to_others(0o600));
}

#[test]
fn bearer_needs_no_email() {
    let cli = cli(&["--transport", "stdio", "--api-key", "pat", "--auth-mode", "bearer"]);
    let tok = cli.resolve_token_custody(None).unwrap();
    assert!(cli.resolve_email(&tok, None).is_ok());
    let client = jira_client(&cli).unwrap();
    assert_eq!(client.auth_mode(), AuthMode::Bearer);
    assert_eq!(client.api_version(), ApiVersion::V2);
    assert_eq!(client.user_agent(), "jirakeep/0.1.0 (+https://github.com/plusky/jirakeep)");
}

#[test]
fn read_only_only_tightens() {
    let mut cli = cli(&[]);
    let mut strict = Policy::default();
    strict.global.read_only = true;
    assert!(cli.tighten(strict).global.read_only);
    cli.read_only = true;
    assert!(cli.tighten(Policy::default()).global.read_only);
}

// --- tools ------------------------------------------------------------------

#[test]
fn lists_expected_tools() {
    let s = test_server(false);
    let names = names(&s);
    for need in [
        "mcp_server_info",
        "issue_info",
        "issues_search",
        "add_comment",
        "create_issue",
    ] {
        assert!(names.iter().any(|n| n == need), "missing {need} in {names:?}");
    }
}

#[test]
fn read_only_removes_write_tools() {
    let s = test_server(true);
    let names = names(&s);
    for tool in Tool::all() {
        if tool.is_write() {
            assert!(
                !names.iter().any(|n| n == tool.name()),
                "write tool {} still listed",
                tool.name()
            );
        }
    }
    assert!(names.iter().any(|n| n == "issue_info"));
}

#[test]
fn disabled_tools_vanish() {
    let mut policy = Policy::default();
    policy.global.disabled_tools = vec!["issue_info".to_owned()];
    assert!(!list_tools(&policy).contains(&Tool::IssueInfo));
    assert!(list_tools(&policy).contains(&Tool::IssuesSearch));
    policy.global.disabled_tools = vec!["issue_inf".to_owned()];
    match keep(cli(&[]), policy) {
        Err(StartError::UnknownTool { name }) => assert_eq!(name, "issue_inf"),
        _ => panic!("unknown tool was accepted"),
    }
    for tool in Tool::all() {
        assert_eq!(Tool::from_name(tool.name()), Some(tool));
    }
    assert_eq!(default_max(), 50);
}

#[test]
fn start_needs_its_secrets() {
    match keep(cli(&["--transport", "stdio"]), Policy::default()) {
        Err(StartError::Config(ConfigError::NoToken)) => {}
        _ => panic!("no token was needed"),
    }
}

#[test]
fn server_info_tells_coarse_facts() {
    let policy = Policy::from_toml_str(
        "default_action = \"deny\"\n[global]\npublic_projects = [\"HIDDEN\"]\n[[rule]]\nname = \"topsecret\"\naction = \"allow\"\n[rule.match]\nprojects = [\"ABC\"]\n",
    )
    .unwrap();
    let info = started(cli(&[]), policy).mcp_server_info();
    assert_eq!(at(&info, "policy/rule_count").as_u64(), Some(1));
    assert_eq!(at(&info, "policy/default_action").as_str(), Some("deny"));
    assert_eq!(at(&info, "policy/public_projects_count").as_u64(), Some(1));
    assert_eq!(at(&info, "transport").as_str(), Some("http"));
    let url = test_server(false).issue_url("A-1");
    assert_eq!(at(&url, "url").as_str(), Some("https://example.atlassian.net/browse/A-1"));
}

// --- credentials ------------------------------------------------------------

#[test]
fn credentials_come_with_each_request() {
    let s = test_server(false);
    let c = s
        .credentials(Some("tok".to_owned()), Some("e@x".to_owned()))
        .ok()
        .expect("both headers");
    assert_eq!((c.email.as_str(), c.token.as_str()), ("e@x", "tok"));
    assert!(matches!(
        s.credentials(None, Some("e@x".to_owned())),
        Err(CredentialsError::NoToken { header }) if header == "ApiKey"
    ));
    assert!(matches!(
        s.credentials(Some("tok".to_owned()), None),
        Err(CredentialsError::NoEmail { header }) if header == "X-Atlassian-Email"
    ));
    assert!(s.credentials(Some(String::new()), Some("e@x".to_owned())).is_err());
}

#[test]
fn held_token_wins_over_the_header() {
    let s = started(
        cli(&["--transport", "stdio", "--api-key", "held", "--email", "e@x"]),
        Policy::default(),
    );
    let c = s
        .credentials(Some("other".to_owned()), Some("o@x".to_owned()))
        .ok()
        .expect("held");
    assert_eq!(c.token, "held");
    assert_eq!(c.email, "e@x");
}

#[test]
fn identity_is_looked_up_before_serving() {
    let toml = "default_action = \"deny\"\n[[rule]]\nname = \"mine\"\naction = \"allow\"\n[rule.match]\ncreated_by_me = true\n";
    let args = ["--transport", "stdio", "--api-key", "t", "--email", "e@x"];
    let s = started(cli(&args), Policy::from_toml_str(toml).unwrap());
    let request = s.preflight_request().expect("identity is asked for");
    assert_eq!(request.url, "https://example.atlassian.net/rest/api/3/myself");
    let good = Reply::Answer { status: 200, body: r#"{"accountId": "a"}"#.to_owned() };
    assert!(s.preflight_identity(good).is_ok());
    let bad = Reply::Answer { status: 401, body: "{}".to_owned() };
    assert!(s.preflight_identity(bad).unwrap_err().contains("created_by_me"));
    assert!(started(cli(&args), Policy::default()).preflight_request().is_none());
}

// --- the audit log ----------------------------------------------------------

fn event(tool: &str) -> AuditEvent {
    AuditEvent {
        v: 1,
        seq: 0,
        ts: String::new(),
        kind: "tool_call".to_owned(),
        tool: Some(tool.to_owned()),
        verdict: Some("served".to_owned()),
        rule: None,
        suppressed_keys: None,
        suppressed_count: None,
        scanned: None,
        dropped: None,
        policy_hash: None,
        transport: Some("stdio".to_owned()),
        client_name: None,
        client_version: None,
        protocol_version: None,
        duration_ms: Some(1),
        error: None,
    }
}

#[test]
fn records_are_numbered_and_dated() {
    let config = AuditConfig {
        path: "audit.jsonl".to_owned(),
        fsync: false,
        fail_mode: Some(FailMode::Open),
        rotate_max_bytes: 0,
        rotate_keep: 1,
        suppressed_ids: true,
    };
    let mut sink = AuditSink::open(config, 0);
    let first = sink.record(event("mcp_server_info"), 77);
    assert_eq!((first.v, first.seq, first.ts.as_str()), (1, 1, "77"));
    assert_eq!(first.tool.as_deref(), Some("mcp_server_info"));
    let second = sink.record(event("issue_info"), 78);
    assert_eq!(second.seq, 2);
    assert_eq!(timestamp(78), "78");
    sink.mark_failing();
    assert!(sink.is_failing());
    sink.written(9);
    assert!(!sink.is_failing());
    assert_eq!(sink.bytes, 10);
}

#[test]
fn rotation_moves_the_older_files_on() {
    let config =
        AuditConfig::from_toml_str("path = \"a.log\"\nrotate_max_bytes = 100\nrotate_keep = 2\n")
            .unwrap();
    let mut sink = AuditSink::open(config, 90);
    assert!(!sink.needs_rotation(9));
    assert!(sink.needs_rotation(10));
    assert_eq!(
        sink.rotate(),
        vec![
            ("a.log.1".to_owned(), "a.log.2".to_owned()),
            ("a.log".to_owned(), "a.log.1".to_owned()),
        ]
    );
    sink.rotated();
    assert_eq!(sink.bytes, 0);
}

#[test]
fn audit_config_is_read_strictly() {
    let c = AuditConfig::from_toml_str("path = \"a\"\n").unwrap();
    assert_eq!(c.fail_mode, None);
    assert_eq!((c.rotate_max_bytes, c.rotate_keep), (67_108_864, 8));
    for text in ["", "path = 1\n", "path = \"a\"\nnope = 1\n", "path = \"a\"\nfail_mode = \"x\"\n"] {
        assert!(
            matches!(AuditConfig::from_toml_str(text), Err(AuditConfigError::InvalidToml)),
            "{text}"
        );
    }
    assert!(matches!(
        AuditConfig::from_toml_str("path = \"a\"\nrotate_keep = 0\n"),
        Err(AuditConfigError::NothingKept)
    ));
}

#[test]
fn a_fail_mode_may_be_the_only_key_of_a_table() {
    let read = |mode: &str| {
        AuditConfig::from_toml_str(&format!("path = \"a\"\nfail_mode = {mode}\n"))
    };
    for (mode, meant) in [
        ("\"open\"", FailMode::Open),
        ("{ open = {} }", FailMode::Open),
        ("{ closed_all = [] }", FailMode::ClosedAll),
    ] {
        assert_eq!(read(mode).unwrap().fail_mode, Some(meant), "{mode}");
    }
    for mode in ["{}", "{ open = 0 }", "{ open = {}, closed_all = {} }", "[]"] {
        assert!(matches!(read(mode), Err(AuditConfigError::InvalidToml)), "{mode}");
    }
    let c = AuditConfig::from_toml_str("path = \"a\"\nrotate_max_bytes = 18446744073709551615\n");
    assert_eq!(c.unwrap().rotate_max_bytes, u64::MAX);
}

#[test]
fn fail_modes_refuse_writes_first() {
    assert_eq!(FailMode::resolve(None, true), FailMode::ClosedAll);
    assert_eq!(FailMode::resolve(None, false), FailMode::Open);
    assert_eq!(FailMode::resolve(Some(FailMode::ClosedAll), false), FailMode::ClosedAll);
    assert!(!FailMode::Open.refuses(true));
    assert!(FailMode::ClosedWritesDenials.refuses(true));
    assert!(!FailMode::ClosedWritesDenials.refuses(false));
    assert!(FailMode::ClosedAll.refuses(false));
}

#[test]
fn failing_audit_refuses_tools() {
    let state = AuditState::new(FailMode::ClosedWritesDenials, None, true, "http", 5);
    assert_eq!(state.stdio_session_id, "stdio-5");
    let s = test_server(false).with_audit(state);
    assert!(s.audit_refuses("add_comment"));
    assert!(!s.audit_refuses("issue_info"));
    assert!(!test_server(false).audit_refuses("add_comment"));
}

#[test]
fn records_tell_what_the_cell_holds() {
    let mut cell = AuditCell::default();
    cell.note_verdict_rule(Verdict::Served, "r1");
    cell.note_suppressed(&vec!["SEC-1".to_owned()]);
    cell.note_suppressed_count(1);
    cell.note_scan(5, 1);
    let (verdict, rule, keys, n) = cell.snapshot();
    assert_eq!(verdict, Some(Verdict::Served));
    assert_eq!(rule.as_deref(), Some("r1"));
    assert_eq!(keys, vec!["SEC-1".to_owned()]);
    assert_eq!(n, Some(1));
    let state = AuditState::new(FailMode::Open, Some("h".to_owned()), true, "http", 0);
    let record = state.record_tool("issues_search", &cell, 3, None);
    assert_eq!(record.verdict.as_deref(), Some("served"));
    assert_eq!(record.suppressed_keys, Some(vec!["SEC-1".to_owned()]));
    assert_eq!((record.scanned, record.dropped), (Some(5), Some(1)));
    let state = AuditState::new(FailMode::Open, None, false, "http", 0);
    let record = state.record_tool("issues_search", &cell, 3, None);
    assert_eq!(record.suppressed_keys, None);
    let hello = state.record_initialize(Some("c".to_owned()), None, None);
    assert_eq!(hello.kind, "initialize");
    assert_eq!(hello.client_name.as_deref(), Some("c"));
}

#[test]
fn policy_hash_is_sha256() {
    assert_eq!(
        policy_hash_of(&b"abc".to_vec()),
        "sha256:ba7816bf8f01cfea414140de5dae2223b00361a396177a9cb410ff61f20015ad"
    );
    assert_eq!(digest_text(&vec![0, 255]), "sha256:00ff");
}

// --- the manual page --------------------------------------------------------

fn option(id: &str, long: &str, env: Option<&str>, value: Option<&str>, required: bool) -> ManualOption {
    ManualOption {
        id: id.to_owned(),
        long: long.to_owned(),
        env: env.map(|e| e.to_owned()),
        takes_value: value.is_some(),
        value_name: value.filter(|v| !v.is_empty()).map(|v| v.to_owned()),
        required,
    }
}

#[test]
fn manual_lists_options_and_variables() {
    let options = vec![
        option("jira_server", "jira-server", Some("JIRA_SERVER"), Some("URL"), true),
        option("port", "port", None, Some(""), false),
        option("read_only", "read-only", Some("MCP_READ_ONLY"), None, false),
        option("help", "help", None, None, false),
        option("version", "version", None, None, false),
    ];
    assert_eq!(
        render_synopsis(&options),
        ".SH SYNOPSIS\n\\fBjirakeep\\fR\n\\fB\\-\\-jira\\-server\\fR <URL>\n[\\fB\\-\\-port\\fR <PORT>]\n[\\fB\\-\\-read\\-only\\fR]\n[\\fB\\-h\\fR|\\fB\\-\\-help\\fR]\n[\\fB\\-V\\fR|\\fB\\-\\-version\\fR]\n"
    );
    let environment = render_environment(&options);
    assert!(environment.starts_with(".SH ENVIRONMENT\n"));
    assert!(environment.ends_with(
        ".TP\n.B JIRA_SERVER\nFallback for \\fB\\-\\-jira\\-server\\fR.\n.TP\n.B MCP_READ_ONLY\nFallback for \\fB\\-\\-read\\-only\\fR.\n"
    ));
    let page = render_man("0.1.0", "NAME\n", "DESCRIPTION\n", "OPTIONS\n", &options);
    assert!(page.starts_with(
        ".TH jirakeep 1 \"\" \"jirakeep 0.1.0\" \"General Commands Manual\"\nNAME\n.SH SYNOPSIS\n"
    ));
    assert!(page.contains("DESCRIPTION\nOPTIONS\n.SH EXIT STATUS\n"));
    assert!(page.ends_with(".fi\n.RE\n"));
}

#[test]
fn log_text_escapes_what_it_quotes() {
    let cli = cli(&["--jira-server", "https://a\"b\\c\n", "--policy", "/p\"q"]);
    let text = cli.debug_text();
    assert!(text.starts_with(r#"Cli { jira_server: "https://a\"b\\c\n", transport: "#));
    assert!(text.ends_with(r#", policy: Some("/p\"q") }"#));
}

#[test]
fn tools_that_send_nothing_need_no_credentials() {
    for tool in [Tool::McpServerInfo, Tool::IssueUrl] {
        assert!(!tool.needs_credentials());
    }
    for tool in [Tool::JiraServerInfo, Tool::IssueInfo, Tool::CreateIssue, Tool::ListFilters] {
        assert!(tool.needs_credentials());
    }
}

#[test]
fn the_nth_record_has_its_number() {
    let config = AuditConfig::from_toml_str("path = \"a.log\"\n").unwrap();
    let mut sink = AuditSink::open(config, 0);
    for n in 1..=5u64 {
        let record = sink.record(event("issue_info"), 7);
        assert_eq!((record.seq, record.v), (n, 1));
        if n == 2 {
            sink.mark_failing();
            assert!(sink.is_failing());
        } else {
            sink.rotated();
            sink.written(10);
            assert!(!sink.is_failing());
        }
    }
}
