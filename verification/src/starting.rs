//! What the operator's settings come to: who holds the secrets, which client and
//! which tools there are, and what the server tells of itself.

use vstd::prelude::*;
use vstd::string::*;

use crate::client::{client_for, ApiVersion, AuthMode, ClientView, Method, SetupError};
use crate::config::{
    configured_client, custody_of, email_file_of, email_of, secret_in, token_file_of, AuthModeCli,
    Cli, ConfigErrorView, CustodyView, Secret, Transport, USER_AGENT,
};
use crate::flow::{OutcomeView, StepView, Trace};
use crate::json::JsonView;
use crate::policy::{Action, PolicyView};
use crate::requests::{of_a_file, the_request_carries_what_the_call_gives};
use crate::server::{credentials_of, started, CredentialsErrorView, KeepView, StartErrorView};
use crate::text::{trimmed, without_end_slashes};
use crate::tools::{first_unknown, offer, offered, tool_named, Tool, ToolCall};
use crate::wording::{
    blank, end_slashes_are_taken_off, left_of, trimming_takes_white_space_off_the_ends,
};

verus! {

// --- tools ------------------------------------------------------------------

/// The names under which clients find the tools.
pub proof fn the_tools_go_by_their_names(name: Seq<char>)
    ensures
        Tool::AddAttachment.word() == "add_attachment"@,
        Tool::AddComment.word() == "add_comment"@,
        Tool::AddWatcher.word() == "add_watcher"@,
        Tool::AssignIssue.word() == "assign_issue"@,
        Tool::CreateIssue.word() == "create_issue"@,
        Tool::DownloadAttachment.word() == "download_attachment"@,
        Tool::IssueComments.word() == "issue_comments"@,
        Tool::IssueHistory.word() == "issue_history"@,
        Tool::IssueInfo.word() == "issue_info"@,
        Tool::IssueUrl.word() == "issue_url"@,
        Tool::IssuesSearch.word() == "issues_search"@,
        Tool::JiraServerInfo.word() == "jira_server_info"@,
        Tool::LinkIssues.word() == "link_issues"@,
        Tool::ListAttachments.word() == "list_attachments"@,
        Tool::ListFilters.word() == "list_filters"@,
        Tool::ListTransitions.word() == "list_transitions"@,
        Tool::McpServerInfo.word() == "mcp_server_info"@,
        Tool::SearchFilter.word() == "search_filter"@,
        Tool::SummarizeIssue.word() == "summarize_issue"@,
        Tool::TransitionIssue.word() == "transition_issue"@,
        Tool::UpdateIssueFields.word() == "update_issue_fields"@,
        tool_named(name) matches Some(tool) ==> tool.word() == name,
        tool_named(name) is None ==> forall|tool: Tool| #[trigger] tool.word() != name,
{
}

/// A tool is offered exactly where it is not disabled and, in read-only mode, is
/// none of those that send anything but a `GET`; and it is such a one exactly
/// where its request is.
pub proof fn a_tool_writes_where_its_request_does(trace: Trace, n: int)
    requires
        0 <= n <= trace.inputs.len(),
        of_a_file(trace.keep),
        trace.after(n).0.stage is Main,
    ensures
        trace.after(n).1 is Call,
        trace.call.tool_of().writes() <==> trace.after(n).1->Call_0.method != Method::Get,
        offered(trace.keep.policy, trace.call.tool_of()) <==> {
            &&& !(trace.keep.policy.global.read_only && trace.after(n).1->Call_0.method
                != Method::Get)
            &&& !trace.keep.policy.global.disabled_tools.contains(trace.call.tool_of().word())
        },
{
    the_request_carries_what_the_call_gives(trace, n);
}

/// A tool that only reads stays on offer in read-only mode.
pub proof fn reading_tools_stay_on_offer(policy: PolicyView, call: ToolCall)
    requires
        call is McpServerInfo || call is IssueUrl || call is IssueInfo || call is IssuesSearch
            || call is SearchFilter || call is JiraServerInfo || call is ListFilters
            || call is IssueComments || call is IssueHistory || call is ListAttachments
            || call is DownloadAttachment || call is ListTransitions || call is SummarizeIssue,
    ensures
        offered(policy, call.tool_of()) <==> !policy.global.disabled_tools.contains(
            call.tool_of().word(),
        ),
        !call.tool_of().writes(),
{
}

/// A call is one of the tool that it is a call of.
pub proof fn a_call_is_of_its_tool(call: ToolCall)
    ensures
        call is AddAttachment <==> call.tool_of() == Tool::AddAttachment,
        call is AddComment <==> call.tool_of() == Tool::AddComment,
        call is AddWatcher <==> call.tool_of() == Tool::AddWatcher,
        call is AssignIssue <==> call.tool_of() == Tool::AssignIssue,
        call is CreateIssue <==> call.tool_of() == Tool::CreateIssue,
        call is DownloadAttachment <==> call.tool_of() == Tool::DownloadAttachment,
        call is IssueComments <==> call.tool_of() == Tool::IssueComments,
        call is IssueHistory <==> call.tool_of() == Tool::IssueHistory,
        call is IssueInfo <==> call.tool_of() == Tool::IssueInfo,
        call is IssueUrl <==> call.tool_of() == Tool::IssueUrl,
        call is IssuesSearch <==> call.tool_of() == Tool::IssuesSearch,
        call is JiraServerInfo <==> call.tool_of() == Tool::JiraServerInfo,
        call is LinkIssues <==> call.tool_of() == Tool::LinkIssues,
        call is ListAttachments <==> call.tool_of() == Tool::ListAttachments,
        call is ListFilters <==> call.tool_of() == Tool::ListFilters,
        call is ListTransitions <==> call.tool_of() == Tool::ListTransitions,
        call is McpServerInfo <==> call.tool_of() == Tool::McpServerInfo,
        call is SearchFilter <==> call.tool_of() == Tool::SearchFilter,
        call is SummarizeIssue <==> call.tool_of() == Tool::SummarizeIssue,
        call is TransitionIssue <==> call.tool_of() == Tool::TransitionIssue,
        call is UpdateIssueFields <==> call.tool_of() == Tool::UpdateIssueFields,
{
}

/// The offer holds each tool that is offered, once, and no other.
pub proof fn the_offer_holds_what_is_offered(policy: PolicyView, tool: Tool)
    ensures
        offer(policy).contains(tool) <==> offered(policy, tool),
{
    let all = crate::tools::all_tools();
    assert(all[tool.rank()] == tool);
    if offered(policy, tool) {
        all.lemma_filter_contains(crate::tools::offered_by(policy), tool.rank());
    }
    if offer(policy).contains(tool) {
        let i = choose|i: int| 0 <= i < offer(policy).len() && offer(policy)[i] == tool;
        all.lemma_filter_pred(crate::tools::offered_by(policy), i);
    }
}

// --- secrets ----------------------------------------------------------------

/// A setting is given and not empty.
pub open spec fn is_set(value: Option<String>) -> bool {
    value is Some && value->0@.len() > 0
}

/// The server holds the token that the operator gives it: the one in the token
/// file, without the white space around it, or, over standard input and output,
/// the one on the command line. It does not start with two, with an empty file
/// or with none where it needs one. Over HTTP without a file each request brings
/// its own.
pub proof fn the_token_is_the_operators(cli: Cli, contents: Option<Seq<char>>)
    ensures
        ({
            let custody = custody_of(cli, contents);
            if is_set(cli.api_key) && is_set(cli.api_key_file) {
                custody == Err::<CustodyView, ConfigErrorView>(ConfigErrorView::TokenTwice)
            } else if is_set(cli.api_key_file) {
                match contents {
                    Some(text) => if trimmed(text).len() > 0 {
                        custody == Ok::<CustodyView, ConfigErrorView>(
                            CustodyView::Server(trimmed(text)),
                        )
                    } else {
                        custody is Err
                    },
                    None => custody is Err,
                }
            } else if cli.transport == Transport::Http {
                custody == Ok::<CustodyView, ConfigErrorView>(CustodyView::PerRequest)
            } else if is_set(cli.api_key) {
                custody == Ok::<CustodyView, ConfigErrorView>(
                    CustodyView::Server(cli.api_key->0@),
                )
            } else {
                custody == Err::<CustodyView, ConfigErrorView>(ConfigErrorView::NoToken)
            }
        }),
{
}

/// The email is the one that the operator gives, on the command line or in a
/// file; there has to be one where the server holds the token and signs with
/// both.
pub proof fn the_email_is_the_operators(
    cli: Cli,
    custody: CustodyView,
    contents: Option<Seq<char>>,
)
    ensures
        ({
            let email = email_of(cli, custody, contents);
            if is_set(cli.email) && is_set(cli.email_file) {
                email == Err::<Option<Seq<char>>, ConfigErrorView>(ConfigErrorView::EmailTwice)
            } else if is_set(cli.email_file) {
                match contents {
                    Some(text) => if trimmed(text).len() > 0 {
                        email == Ok::<Option<Seq<char>>, ConfigErrorView>(Some(trimmed(text)))
                    } else {
                        email is Err
                    },
                    None => email is Err,
                }
            } else if is_set(cli.email) {
                email == Ok::<Option<Seq<char>>, ConfigErrorView>(Some(cli.email->0@))
            } else if custody is Server && cli.auth_mode == AuthModeCli::Basic {
                email == Err::<Option<Seq<char>>, ConfigErrorView>(ConfigErrorView::NoEmail)
            } else {
                email == Ok::<Option<Seq<char>>, ConfigErrorView>(None)
            }
        }),
{
}

/// A file is read for a secret exactly where the operator names one and does not
/// give the secret itself; a file that cannot be read, and one with nothing in
/// it, are told apart, each with its path.
pub proof fn a_secret_comes_from_its_file(cli: Cli, secret: Secret, path: Seq<char>, text: Seq<char>)
    ensures
        token_file_of(cli) is Some <==> is_set(cli.api_key_file) && !is_set(cli.api_key),
        token_file_of(cli) is Some ==> token_file_of(cli)->0 == cli.api_key_file->0@,
        email_file_of(cli) is Some <==> is_set(cli.email_file) && !is_set(cli.email),
        email_file_of(cli) is Some ==> email_file_of(cli)->0 == cli.email_file->0@,
        secret_in(secret, path, None) == Err::<Seq<char>, ConfigErrorView>(
            ConfigErrorView::Unreadable { secret, path },
        ),
        blank(text) ==> secret_in(secret, path, Some(text)) == Err::<Seq<char>, ConfigErrorView>(
            ConfigErrorView::Blank { secret, path },
        ),
        !blank(text) ==> secret_in(secret, path, Some(text)) == Ok::<Seq<char>, ConfigErrorView>(
            trimmed(text),
        ),
{
    trimming_takes_white_space_off_the_ends(text);
    let (a, b) = choose|a: Seq<char>, b: Seq<char>| #[trigger]
        left_of(text, a, trimmed(text), b);
    if trimmed(text).len() == 0 {
        assert(text =~= a + b);
        assert(blank(text));
    } else {
        assert(text[a.len() as int] == trimmed(text)[0]);
        assert(!crate::text::is_white_space(text[a.len() as int]));
    }
}

/// The credentials of a call: the token that the server holds, or else that of
/// the request; the email that the server holds, or else that of the request,
/// which a bearer does not need. Without a token, or an email where one is
/// needed, there are none.
pub proof fn a_call_goes_by_the_held_credentials(
    keep: KeepView,
    token_header: Option<String>,
    email_header: Option<String>,
)
    ensures
        ({
            let creds = credentials_of(keep, token_header, email_header);
            let token_known = keep.custody is Server || is_set(token_header);
            let email_known = keep.email is Some || keep.cfg.auth_mode == AuthModeCli::Bearer
                || is_set(email_header);
            &&& creds is Ok <==> token_known && email_known
            &&& !token_known ==> creds == Err::<(Seq<char>, Seq<char>), CredentialsErrorView>(
                CredentialsErrorView::NoToken { header: keep.cfg.api_key_header@ },
            )
            &&& token_known && !email_known ==> creds == Err::<
                (Seq<char>, Seq<char>),
                CredentialsErrorView,
            >(CredentialsErrorView::NoEmail { header: keep.cfg.email_header@ })
            &&& creds matches Ok((email, token)) ==> {
                &&& token == match keep.custody {
                    CustodyView::Server(held) => held,
                    CustodyView::PerRequest => token_header->0@,
                }
                &&& keep.email is Some ==> email == keep.email->0
                &&& keep.email is None && keep.cfg.auth_mode == AuthModeCli::Basic ==> email
                    == email_header->0@
            }
        }),
{
}

// --- the client -------------------------------------------------------------

/// The client goes to the site that the operator names, without the slashes at
/// the end of its address, authenticates as the operator says, and uses the
/// version that the operator names, or else the newer one with an email and the
/// older one with a bearer. There is none for an address of slashes alone.
pub proof fn the_client_is_the_operators(cli: Cli)
    ensures
        ({
            let server = cli.jira_server@;
            match configured_client(cli) {
                Ok(client) => {
                    &&& 0 < client.base_url.len() <= server.len()
                    &&& server.take(client.base_url.len() as int) == client.base_url
                    &&& forall|i: int|
                        client.base_url.len() <= i < server.len() ==> #[trigger] server[i] == '/'
                    &&& client.base_url.last() != '/'
                    &&& client.auth_mode == AuthMode::Basic <==> cli.auth_mode
                        == AuthModeCli::Basic
                    &&& client.api_version == match cli.api_version {
                        Some(version) => version,
                        None => if cli.auth_mode == AuthModeCli::Basic {
                            ApiVersion::V3
                        } else {
                            ApiVersion::V2
                        },
                    }
                    &&& client.user_agent == USER_AGENT@
                },
                Err(_) => forall|i: int|
                    0 <= i < server.len() ==> #[trigger] server[i] == '/',
            }
        }),
{
    end_slashes_are_taken_off(cli.jira_server@);
    let agent = USER_AGENT@;
    reveal_strlit("jirakeep/0.1.0 (+https://github.com/plusky/jirakeep)");
    assert(agent.len() > 0 && agent[0] == 'j');
    trimming_takes_white_space_off_the_ends(agent);
    let (a, b) = choose|a: Seq<char>, b: Seq<char>| #[trigger]
        left_of(agent, a, trimmed(agent), b);
    if trimmed(agent).len() == 0 {
        assert(agent =~= a + b);
        assert(blank(agent));
    }
}

/// The server starts with what it is given, unless a secret is wanting or the
/// policy disables a tool that there is not.
pub proof fn the_server_starts_as_it_is_set(
    cfg: Cli,
    policy: PolicyView,
    client: ClientView,
    token: Option<Seq<char>>,
    email: Option<Seq<char>>,
)
    ensures
        match started(cfg, policy, client, token, email) {
            Ok(keep) => {
                &&& keep.cfg == cfg
                &&& keep.policy == policy
                &&& keep.client == client
                &&& keep.audit is None
                &&& custody_of(cfg, token) == Ok::<CustodyView, ConfigErrorView>(keep.custody)
                &&& email_of(cfg, keep.custody, email) == Ok::<
                    Option<Seq<char>>,
                    ConfigErrorView,
                >(keep.email)
                &&& forall|i: int|
                    0 <= i < policy.global.disabled_tools.len() ==> tool_named(
                        #[trigger] policy.global.disabled_tools[i],
                    ) is Some
            },
            Err(e) => {
                ||| custody_of(cfg, token) is Err
                ||| email_of(cfg, custody_of(cfg, token)->Ok_0, email) is Err
                ||| e matches StartErrorView::UnknownTool { name }
                    && policy.global.disabled_tools.contains(name) && tool_named(name) is None
            },
        },
{
    lemma_first_unknown(policy.global.disabled_tools);
}

proof fn lemma_first_unknown(names: Seq<Seq<char>>)
    ensures
        match first_unknown(names) {
            Some(name) => names.contains(name) && tool_named(name) is None,
            None => forall|i: int| 0 <= i < names.len() ==> tool_named(#[trigger] names[i]) is Some,
        },
    decreases names.len(),
{
    if names.len() > 0 {
        let rest = names.drop_first();
        lemma_first_unknown(rest);
        match first_unknown(names) {
            Some(name) => {
                if tool_named(names[0]) is None {
                    assert(names[0] == name);
                } else {
                    let i = choose|i: int| 0 <= i < rest.len() && rest[i] == name;
                    assert(names[i + 1] == name);
                }
            },
            None => {
                assert forall|i: int| 0 <= i < names.len() implies tool_named(
                    #[trigger] names[i],
                ) is Some by {
                    if i > 0 {
                        assert(rest[i - 1] == names[i]);
                    }
                }
            },
        }
    }
}

// --- what is told without the site ------------------------------------------

/// What the server tells of itself: its name, how it reaches the site, and the
/// coarse switches of its policy, with the number of its rules and of its public
/// projects in the place of those. It asks the site for nothing.
pub proof fn the_server_tells_its_settings(trace: Trace)
    requires
        trace.call is McpServerInfo,
    ensures
        trace.after(0).1 matches StepView::Finish(OutcomeView::Success(_)),
        ({
            let facts = trace.after(0).1->Finish_0->Success_0;
            let policy = facts.get("policy"@)->0;
            let global = trace.keep.policy.global;
            &&& facts.get("name"@) == Some(JsonView::Text("jirakeep"@))
            &&& facts.text_at("jira_server"@) == Some(trace.keep.cfg.jira_server@)
            &&& facts.text_at("transport"@) == Some(
                if trace.keep.cfg.transport == Transport::Http {
                    "http"@
                } else {
                    "stdio"@
                },
            )
            &&& facts.text_at("backend"@) == Some(
                if trace.keep.cfg.auth_mode == AuthModeCli::Basic {
                    "jira-cloud-basic"@
                } else {
                    "jira-bearer"@
                },
            )
            &&& facts.get("audit"@) == Some(JsonView::Bool(trace.keep.audit is Some))
            &&& facts.get("policy"@) is Some
            &&& policy.get("rule_count"@) == Some(JsonView::Unsigned(trace.keep.policy.rules.len()))
            &&& policy.text_at("default_action"@) == Some(
                match trace.keep.policy.default_action {
                    Action::Allow => "allow"@,
                    Action::Deny => "deny"@,
                    Action::Restrict => "restrict"@,
                },
            )
            &&& policy.get("min_issue_age_days"@) == Some(
                JsonView::Unsigned(global.min_issue_age_days as nat),
            )
            &&& policy.get("read_only"@) == Some(JsonView::Bool(global.read_only))
            &&& policy.get("allow_restricted_comments"@) == Some(
                JsonView::Bool(global.allow_restricted_comments),
            )
            &&& policy.items_at("disabled_tools"@) is Some
            &&& policy.items_at("disabled_tools"@)->0.len() == global.disabled_tools.len()
            &&& forall|i: int|
                0 <= i < global.disabled_tools.len() ==> policy.items_at("disabled_tools"@)->0[i]
                    == JsonView::Text(#[trigger] global.disabled_tools[i])
            &&& policy.get("public_projects_count"@) == Some(
                JsonView::Unsigned(global.public_projects.len()),
            )
        }),
{
    lemma_fact_names();
}

proof fn lemma_fact_names()
    ensures
        "name"@.len() == 4,
        "version"@.len() == 7,
        "backend"@.len() == 7 && "backend"@[0] == 'b' && "version"@[0] == 'v',
        "jira_server"@.len() == 11,
        "transport"@.len() == 9,
        "policy"@.len() == 6,
        "audit"@.len() == 5,
        "rule_count"@.len() == 10,
        "default_action"@.len() == 14 && "default_action"@[1] == 'e',
        "min_issue_age_days"@.len() == 18,
        "read_only"@.len() == 9,
        "allow_restricted_comments"@.len() == 25,
        "disabled_tools"@.len() == 14 && "disabled_tools"@[1] == 'i',
        "public_projects_count"@.len() == 21,
{
    reveal_strlit("name");
    reveal_strlit("version");
    reveal_strlit("backend");
    reveal_strlit("jira_server");
    reveal_strlit("transport");
    reveal_strlit("policy");
    reveal_strlit("audit");
    reveal_strlit("rule_count");
    reveal_strlit("default_action");
    reveal_strlit("min_issue_age_days");
    reveal_strlit("read_only");
    reveal_strlit("allow_restricted_comments");
    reveal_strlit("disabled_tools");
    reveal_strlit("public_projects_count");
}

/// The address of an issue for a browser is below the address of the site; it is
/// told without asking the site for anything.
pub proof fn a_browse_address_is_below_the_site(trace: Trace)
    requires
        trace.call is IssueUrl,
    ensures
        trace.after(0).1 matches StepView::Finish(OutcomeView::Success(_)),
        ({
            let told = trace.after(0).1->Finish_0->Success_0;
            let key = trace.call->IssueUrl_0.key@;
            let server = trace.keep.cfg.jira_server@;
            &&& told.text_at("key"@) == Some(key)
            &&& exists|base: Seq<char>|
                {
                    &&& told.text_at("url"@) == Some(#[trigger] (base + "/browse/"@ + key))
                    &&& base.len() <= server.len() && server.take(base.len() as int) == base
                    &&& base.len() > 0 ==> base.last() != '/'
                    &&& forall|i: int|
                        base.len() <= i < server.len() ==> #[trigger] server[i] == '/'
                }
        }),
{
    reveal_strlit("key");
    reveal_strlit("url");
    assert("key"@[0] == 'k');
    assert("url"@[0] == 'u');
    end_slashes_are_taken_off(trace.keep.cfg.jira_server@);
    let base = without_end_slashes(trace.keep.cfg.jira_server@);
    let told = trace.after(0).1->Finish_0->Success_0;
    assert(told.text_at("url"@) == Some(
        base + "/browse/"@ + trace.call->IssueUrl_0.key@,
    ));
}

// --- what keeps a server from starting --------------------------------------

/// A client is made of any address that is more than slashes and any name that
/// is more than white space, and of no other; it keeps both, and the way to
/// authenticate and the version that it is given.
pub proof fn a_client_wants_an_address_and_a_name(
    base: Seq<char>,
    agent: Seq<char>,
    mode: AuthMode,
    version: ApiVersion,
)
    ensures
        match client_for(base, agent, mode, version) {
            Ok(client) => {
                &&& !blank(agent)
                &&& exists|i: int| 0 <= i < base.len() && #[trigger] base[i] != '/'
                &&& client.user_agent == agent
                &&& client.auth_mode == mode
                &&& client.api_version == version
                &&& client.base_url == base.take(client.base_url.len() as int)
                &&& client.base_url.last() != '/'
                &&& forall|i: int|
                    client.base_url.len() <= i < base.len() ==> #[trigger] base[i] == '/'
            },
            Err(SetupError::BlankUserAgent) => blank(agent),
            Err(SetupError::EmptyBaseUrl) => !blank(agent) && forall|i: int|
                0 <= i < base.len() ==> #[trigger] base[i] == '/',
        },
{
    end_slashes_are_taken_off(base);
    trimming_takes_white_space_off_the_ends(agent);
    let (a, b) = choose|a: Seq<char>, b: Seq<char>| #[trigger]
        left_of(agent, a, trimmed(agent), b);
    if trimmed(agent).len() == 0 {
        assert(agent =~= a + b);
        assert(blank(agent));
    } else {
        assert(agent[a.len() as int] == trimmed(agent)[0]);
        assert(!crate::text::is_white_space(agent[a.len() as int]));
    }
    let kept = without_end_slashes(base);
    if kept.len() > 0 {
        assert(base[kept.len() - 1] == kept.last());
    }
}

/// The first of the names that is the name of no tool is the one that is told.
pub proof fn the_first_unknown_tool_is_told(names: Seq<Seq<char>>, i: int)
    requires
        0 <= i < names.len(),
        tool_named(names[i]) is None,
        forall|j: int| 0 <= j < i ==> tool_named(#[trigger] names[j]) is Some,
    ensures
        first_unknown(names) == Some(names[i]),
    decreases i,
{
    if i > 0 {
        let rest = names.drop_first();
        assert(tool_named(names[0]) is Some);
        assert forall|j: int| 0 <= j < i - 1 implies tool_named(#[trigger] rest[j]) is Some by {
            assert(rest[j] == names[j + 1]);
        }
        the_first_unknown_tool_is_told(rest, i - 1);
    }
}

/// A server does not start without its secrets, and tells what is wanting: first
/// the token, then the email. Where nothing is wanting, it starts.
pub proof fn what_is_wanting_is_told(
    cfg: Cli,
    policy: PolicyView,
    client: ClientView,
    token: Option<Seq<char>>,
    email: Option<Seq<char>>,
)
    ensures
        ({
            let outcome = started(cfg, policy, client, token, email);
            match custody_of(cfg, token) {
                Err(wanting) => outcome == Err::<KeepView, StartErrorView>(
                    StartErrorView::Config(wanting),
                ),
                Ok(custody) => match email_of(cfg, custody, email) {
                    Err(wanting) => outcome == Err::<KeepView, StartErrorView>(
                        StartErrorView::Config(wanting),
                    ),
                    Ok(_) => outcome is Err ==> (outcome->Err_0 is UnknownTool && exists|i: int|
                        0 <= i < policy.global.disabled_tools.len() && tool_named(
                            #[trigger] policy.global.disabled_tools[i],
                        ) is None),
                },
            }
        }),
{
    lemma_first_unknown(policy.global.disabled_tools);
    if let Some(name) = first_unknown(policy.global.disabled_tools) {
        let names = policy.global.disabled_tools;
        let i = choose|i: int| 0 <= i < names.len() && names[i] == name;
        assert(tool_named(names[i]) is None);
    }
}

} // verus!
