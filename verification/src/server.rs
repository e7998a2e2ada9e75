//! The server: how it is set up, whose credentials a call uses, and what it
//! tells of itself.

use vstd::prelude::*;
use vstd::string::*;

use crate::audit::AuditState;
use crate::client::{
    get_request, setup_view, ClientView, Credentials, JiraClient, Request, SetupError,
};
use crate::config::{
    configured_client, custody_of, email_of, given, AuthModeCli, Cli, ConfigError,
    ConfigErrorView, CustodyView, TokenCustody,
};
use crate::guard::Guard;
use crate::json::{text_array, Json, JsonView, Members};
use crate::meta::optional_text;
use crate::policy::{asks_identity, PolicyView};
use crate::reply::{account_id_of, document_of, Reply};
use crate::text::{concat, concat3, trim_end_slashes, without_end_slashes};
use crate::tools::{find_unknown, first_unknown, list_tools, offer, tool_named, Tool};

verus! {

pub const SERVER_NAME: &'static str = "jirakeep";

pub const SERVER_VERSION: &'static str = "0.1.0";

/// The client of the Jira site that the configuration asks for.
pub fn jira_client(cli: &Cli) -> (res: Result<JiraClient, SetupError>)
    ensures
        setup_view(res) == configured_client(*cli),
{
    cli.client()
}

/// The server.
pub struct JiraKeep {
    cfg: Cli,
    guard: Guard,
    jira: JiraClient,
    tools: Vec<Tool>,
    token_custody: TokenCustody,
    email: Option<String>,
    audit: Option<AuditState>,
}

/// What a [`JiraKeep`] means.
#[verifier::ext_equal]
pub struct KeepView {
    pub cfg: Cli,
    pub policy: PolicyView,
    pub client: ClientView,
    pub custody: CustodyView,
    pub email: Option<Seq<char>>,
    pub audit: Option<AuditState>,
}

impl View for JiraKeep {
    type V = KeepView;

    closed spec fn view(&self) -> KeepView {
        KeepView {
            cfg: self.cfg,
            policy: self.guard.policy@,
            client: self.jira@,
            custody: self.token_custody@,
            email: optional_text(self.email),
            audit: self.audit,
        }
    }
}

/// Why the server does not start.
#[derive(Debug)]
pub enum StartError {
    Config(ConfigError),
    /// The policy disables a tool that there is not.
    UnknownTool { name: String },
}

/// What a [`StartError`] means.
#[verifier::ext_equal]
pub enum StartErrorView {
    Config(ConfigErrorView),
    UnknownTool { name: Seq<char> },
}

impl View for StartError {
    type V = StartErrorView;

    open spec fn view(&self) -> StartErrorView {
        match self {
            StartError::Config(e) => StartErrorView::Config(e@),
            StartError::UnknownTool { name } => StartErrorView::UnknownTool { name: name@ },
        }
    }
}

impl StartErrorView {
    /// The text that tells the operator.
    pub open spec fn text(self) -> Seq<char> {
        match self {
            StartErrorView::Config(e) => e.text(),
            StartErrorView::UnknownTool { name } => {
                "policy global.disabled_tools names unknown tool \""@ + name
                    + "\" (known tools: add_attachment, add_comment, add_watcher, assign_issue, create_issue, download_attachment, issue_comments, issue_history, issue_info, issue_url, issues_search, jira_server_info, link_issues, list_attachments, list_filters, list_transitions, mcp_server_info, search_filter, summarize_issue, transition_issue, update_issue_fields)"@
            },
        }
    }
}

impl StartError {
    /// The text that tells the operator.
    pub fn message(&self) -> (res: String)
        ensures
            res@ == self@.text(),
    {
        match self {
            StartError::Config(e) => e.message(),
            StartError::UnknownTool { name } => concat3(
                "policy global.disabled_tools names unknown tool \"",
                name.as_str(),
                "\" (known tools: add_attachment, add_comment, add_watcher, assign_issue, create_issue, download_attachment, issue_comments, issue_history, issue_info, issue_url, issues_search, jira_server_info, link_issues, list_attachments, list_filters, list_transitions, mcp_server_info, search_filter, summarize_issue, transition_issue, update_issue_fields)",
            ),
        }
    }
}

/// The server for a configuration, a policy and a client; or why it does not
/// start. `token` and `email` are what the secret files hold.
pub open spec fn started(
    cfg: Cli,
    policy: PolicyView,
    client: ClientView,
    token: Option<Seq<char>>,
    email: Option<Seq<char>>,
) -> Result<KeepView, StartErrorView> {
    match custody_of(cfg, token) {
        Err(e) => Err(StartErrorView::Config(e)),
        Ok(custody) => match email_of(cfg, custody, email) {
            Err(e) => Err(StartErrorView::Config(e)),
            Ok(email) => match first_unknown(policy.global.disabled_tools) {
                Some(name) => Err(StartErrorView::UnknownTool { name }),
                None => Ok(KeepView { cfg, policy, client, custody, email, audit: None }),
            },
        },
    }
}

/// Why a call has no credentials.
#[derive(Debug)]
pub enum CredentialsError {
    NoToken { header: String },
    NoEmail { header: String },
}

/// What a [`CredentialsError`] means.
#[verifier::ext_equal]
pub enum CredentialsErrorView {
    NoToken { header: Seq<char> },
    NoEmail { header: Seq<char> },
}

impl View for CredentialsError {
    type V = CredentialsErrorView;

    open spec fn view(&self) -> CredentialsErrorView {
        match self {
            CredentialsError::NoToken { header } => CredentialsErrorView::NoToken {
                header: header@,
            },
            CredentialsError::NoEmail { header } => CredentialsErrorView::NoEmail {
                header: header@,
            },
        }
    }
}

impl CredentialsErrorView {
    /// The text that tells the client.
    pub open spec fn text(self) -> Seq<char> {
        match self {
            CredentialsErrorView::NoToken { header } => "`"@ + header + "` header is required"@,
            CredentialsErrorView::NoEmail { header } => {
                "email required: set --email or send `"@ + header
                    + "` header (or --auth-mode bearer for DC PAT)"@
            },
        }
    }
}

impl CredentialsError {
    /// The text that tells the client.
    pub fn message(&self) -> (res: String)
        ensures
            res@ == self@.text(),
    {
        match self {
            CredentialsError::NoToken { header } => concat3(
                "`",
                header.as_str(),
                "` header is required",
            ),
            CredentialsError::NoEmail { header } => concat3(
                "email required: set --email or send `",
                header.as_str(),
                "` header (or --auth-mode bearer for DC PAT)",
            ),
        }
    }
}

/// The email and the token of a call. The token is the server's, or the one in
/// the request; likewise the email, which is not needed for a personal access
/// token.
pub open spec fn credentials_of(
    keep: KeepView,
    token_header: Option<String>,
    email_header: Option<String>,
) -> Result<(Seq<char>, Seq<char>), CredentialsErrorView> {
    let token = match keep.custody {
        CustodyView::Server(t) => Some(t),
        CustodyView::PerRequest => given(token_header),
    };
    let email = match keep.email {
        Some(e) => Some(e),
        None => if keep.cfg.auth_mode == AuthModeCli::Bearer {
            Some(Seq::empty())
        } else {
            given(email_header)
        },
    };
    match (token, email) {
        (None, _) => Err(
            CredentialsErrorView::NoToken { header: keep.cfg.api_key_header@ },
        ),
        (Some(_), None) => Err(CredentialsErrorView::NoEmail { header: keep.cfg.email_header@ }),
        (Some(t), Some(e)) => Ok((e, t)),
    }
}

/// A value that counts as given: an empty one does not.
fn nonempty(value: Option<String>) -> (res: Option<String>)
    ensures
        optional_text(res) == given(value),
{
    match value {
        Some(s) => if s.as_str().unicode_len() > 0 {
            Some(s)
        } else {
            None
        },
        None => None,
    }
}

/// What the server tells of itself and of its policy: coarse facts, and neither
/// rules nor projects.
pub open spec fn server_facts(keep: KeepView) -> JsonView {
    let global = keep.policy.global;
    JsonView::Object(
        map![
            "name"@ => JsonView::Text(SERVER_NAME@),
            "version"@ => JsonView::Text(SERVER_VERSION@),
            "backend"@ => JsonView::Text(
                match keep.cfg.auth_mode {
                    AuthModeCli::Basic => "jira-cloud-basic"@,
                    AuthModeCli::Bearer => "jira-bearer"@,
                },
            ),
            "jira_server"@ => JsonView::Text(keep.cfg.jira_server@),
            "transport"@ => JsonView::Text(keep.cfg.transport.word()),
            "policy"@ => JsonView::Object(
                map![
                    "rule_count"@ => JsonView::Unsigned(keep.policy.rules.len()),
                    "default_action"@ => JsonView::Text(keep.policy.default_action.word()),
                    "min_issue_age_days"@ => JsonView::Unsigned(global.min_issue_age_days as nat),
                    "read_only"@ => JsonView::Bool(global.read_only),
                    "allow_restricted_comments"@ => JsonView::Bool(
                        global.allow_restricted_comments,
                    ),
                    "disabled_tools"@ => text_array(global.disabled_tools),
                    "public_projects_count"@ => JsonView::Unsigned(global.public_projects.len()),
                ],
            ),
            "audit"@ => JsonView::Bool(keep.audit is Some),
        ],
    )
}

/// The browse URL of an issue.
pub open spec fn browse_url(keep: KeepView, key: Seq<char>) -> JsonView {
    JsonView::Object(
        map![
            "key"@ => JsonView::Text(key),
            "url"@ => JsonView::Text(
                without_end_slashes(keep.cfg.jira_server@) + "/browse/"@ + key,
            ),
        ],
    )
}

impl JiraKeep {
    #[verifier::type_invariant]
    spec fn sound(&self) -> bool {
        &&& self.guard.policy.has_default()
        &&& self.tools@ == offer(self.guard.policy@)
    }

    /// Sets the server up. `token` and `email` are what the files of
    /// [`Cli::token_file`] and [`Cli::email_file`] hold, `None` where they could
    /// not be read.
    pub fn new(
        cfg: Cli,
        guard: Guard,
        jira: JiraClient,
        token: Option<String>,
        email: Option<String>,
    ) -> (res: Result<JiraKeep, StartError>)
        requires
            guard.policy.has_default(),
        ensures
            match res {
                Ok(keep) => started(
                    cfg,
                    guard.policy@,
                    jira@,
                    optional_text(token),
                    optional_text(email),
                ) == Ok::<KeepView, StartErrorView>(keep@),
                Err(e) => started(
                    cfg,
                    guard.policy@,
                    jira@,
                    optional_text(token),
                    optional_text(email),
                ) == Err::<KeepView, StartErrorView>(e@),
            },
    {
        let token_custody = match cfg.resolve_token_custody(token) {
            Ok(custody) => custody,
            Err(e) => return Err(StartError::Config(e)),
        };
        let email = match cfg.resolve_email(&token_custody, email) {
            Ok(email) => email,
            Err(e) => return Err(StartError::Config(e)),
        };
        if let Some(name) = find_unknown(&guard.policy.global.disabled_tools) {
            return Err(StartError::UnknownTool { name });
        }
        let tools = list_tools(&guard.policy);
        Ok(JiraKeep { cfg, guard, jira, tools, token_custody, email, audit: None })
    }

    /// The server with its audit stream.
    pub fn with_audit(self, audit: AuditState) -> (res: JiraKeep)
        ensures
            res@ == (KeepView { audit: Some(audit), ..self@ }),
    {
        proof {
            use_type_invariant(&self);
        }
        let JiraKeep { cfg, guard, jira, tools, token_custody, email, audit: _ } = self;
        JiraKeep { cfg, guard, jira, tools, token_custody, email, audit: Some(audit) }
    }

    /// The tools that are offered.
    pub fn tools(&self) -> (res: &Vec<Tool>)
        ensures
            res@ == offer(self@.policy),
    {
        proof {
            use_type_invariant(self);
        }
        &self.tools
    }

    pub fn config(&self) -> (res: &Cli)
        ensures
            *res == self@.cfg,
    {
        &self.cfg
    }

    /// The guard. Its policy has a default action.
    pub fn guard(&self) -> (res: &Guard)
        ensures
            res.policy@ == self@.policy,
            res.policy.has_default(),
    {
        proof {
            use_type_invariant(self);
        }
        &self.guard
    }

    pub fn jira(&self) -> (res: &JiraClient)
        ensures
            res@ == self@.client,
    {
        &self.jira
    }

    pub fn audit(&self) -> (res: Option<&AuditState>)
        ensures
            match res {
                Some(a) => self@.audit == Some(*a),
                None => self@.audit is None,
            },
    {
        match &self.audit {
            Some(a) => Some(a),
            None => None,
        }
    }

    /// Whether a tool call is refused because the audit stream cannot be
    /// written.
    pub fn audit_refuses(&self, tool: &str) -> (res: bool)
        ensures
            res == match self@.audit {
                Some(state) => state.fail_mode.refusal(
                    tool_named(tool@) is Some && tool_named(tool@)->0.writes(),
                ),
                None => false,
            },
    {
        let writes = match Tool::from_name(tool) {
            Some(t) => t.is_write(),
            None => false,
        };
        match &self.audit {
            Some(state) => state.fail_mode.refuses(writes),
            None => false,
        }
    }

    /// The credentials of a call, given what stands in the token header and in
    /// the email header of the request.
    pub fn credentials(&self, token_header: Option<String>, email_header: Option<String>) -> (res:
        Result<Credentials, CredentialsError>)
        ensures
            match res {
                Ok(creds) => credentials_of(self@, token_header, email_header) == Ok::<
                    (Seq<char>, Seq<char>),
                    CredentialsErrorView,
                >((creds.email@, creds.token@)),
                Err(e) => credentials_of(self@, token_header, email_header) == Err::<
                    (Seq<char>, Seq<char>),
                    CredentialsErrorView,
                >(e@),
            },
    {
        let token = match &self.token_custody {
            TokenCustody::Server(t) => t.clone(),
            TokenCustody::PerRequest => match nonempty(token_header) {
                Some(t) => t,
                None => return Err(
                    CredentialsError::NoToken { header: self.cfg.api_key_header.clone() },
                ),
            },
        };
        let email = match &self.email {
            Some(e) => e.clone(),
            None => if self.cfg.auth_mode == AuthModeCli::Bearer {
                let none = String::new();
                assert(none@ =~= Seq::empty());
                none
            } else {
                match nonempty(email_header) {
                    Some(e) => e,
                    None => return Err(
                        CredentialsError::NoEmail { header: self.cfg.email_header.clone() },
                    ),
                }
            },
        };
        Ok(Credentials { email, token })
    }

    /// What the server tells of itself and of its policy.
    pub fn mcp_server_info(&self) -> (res: Json)
        ensures
            res@ == server_facts(self@),
    {
        let policy = &self.guard.policy;
        let global = &policy.global;
        let facts = Members::new().with(
            "rule_count",
            Json::Unsigned(policy.rule_count() as u64),
        ).with("default_action", Json::text(policy.default_action.as_word())).with(
            "min_issue_age_days",
            Json::Unsigned(global.min_issue_age_days as u64),
        ).with("read_only", Json::Bool(global.read_only)).with(
            "allow_restricted_comments",
            Json::Bool(global.allow_restricted_comments),
        ).with("disabled_tools", Json::texts(&global.disabled_tools)).with(
            "public_projects_count",
            Json::Unsigned(global.public_projects.len() as u64),
        );
        let backend = match self.cfg.auth_mode {
            AuthModeCli::Basic => "jira-cloud-basic",
            AuthModeCli::Bearer => "jira-bearer",
        };
        Json::Object(
            Members::new().with("name", Json::text(SERVER_NAME)).with(
                "version",
                Json::text(SERVER_VERSION),
            ).with("backend", Json::text(backend)).with(
                "jira_server",
                Json::text(self.cfg.jira_server.as_str()),
            ).with("transport", Json::text(self.cfg.transport.as_word())).with(
                "policy",
                Json::Object(facts),
            ).with("audit", Json::Bool(self.audit.is_some())),
        )
    }

    /// The browse URL of an issue, built without contacting Jira.
    pub fn issue_url(&self, key: &str) -> (res: Json)
        ensures
            res@ == browse_url(self@, key@),
    {
        let url = concat3(trim_end_slashes(self.cfg.jira_server.as_str()), "/browse/", key);
        Json::Object(
            Members::new().with("key", Json::text(key)).with("url", Json::text(url.as_str())),
        )
    }
}

// --- startup check ----------------------------------------------------------

/// A server that holds the token of a policy that asks who created an issue
/// has to be able to tell who the caller is.
pub open spec fn must_know_caller(keep: KeepView) -> bool {
    asks_identity(keep.policy) && keep.custody is Server
}

impl JiraKeep {
    /// The request that shows at startup whether the server can tell who the
    /// caller is; none where it need not.
    pub fn preflight_request(&self) -> (res: Option<Request>)
        ensures
            res is Some <==> must_know_caller(self@) && credentials_of(self@, None, None) is Ok,
            res matches Some(request) ==> exists|creds: Credentials|
                credentials_of(self@, None, None) == Ok::<
                    (Seq<char>, Seq<char>),
                    CredentialsErrorView,
                >((creds.email@, creds.token@)) && request@ == #[trigger] get_request(
                    self@.client,
                    creds,
                    "/myself"@,
                    Seq::empty(),
                ),
    {
        let held = match &self.token_custody {
            TokenCustody::Server(_) => true,
            TokenCustody::PerRequest => false,
        };
        if !held || !self.guard.policy.needs_identity() {
            return None;
        }
        match self.credentials(None, None) {
            Ok(creds) => Some(self.jira.myself(&creds)),
            Err(_) => None,
        }
    }

    /// Whether the reply to [`JiraKeep::preflight_request`] tells who the caller
    /// is; the error tells why not.
    pub fn preflight_identity(&self, reply: Reply) -> (res: Result<(), String>)
        ensures
            match account_id_of(document_of(reply@)) {
                Ok(_) => res is Ok,
                Err(e) => res is Err && res->Err_0@
                    == "policy rules consult created_by_me, but the account id of the server's credentials cannot be resolved: "@
                    + e.text(),
            },
    {
        match JiraClient::account_id(JiraClient::document(reply)) {
            Ok(_) => Ok(()),
            Err(e) => Err(
                concat(
                    "policy rules consult created_by_me, but the account id of the server's credentials cannot be resolved: ",
                    e.message().as_str(),
                ),
            ),
        }
    }
}

// --- laws -------------------------------------------------------------------

/// What the server tells of itself hides the rules and the projects: it is the
/// same for any two policies that agree in the number of rules, the default
/// action, the number of public projects and the other coarse switches.
pub proof fn server_facts_hide_the_policy(a: KeepView, b: KeepView)
    requires
        a.cfg == b.cfg,
        a.audit is Some == b.audit is Some,
        a.policy.rules.len() == b.policy.rules.len(),
        a.policy.default_action == b.policy.default_action,
        a.policy.global.min_issue_age_days == b.policy.global.min_issue_age_days,
        a.policy.global.read_only == b.policy.global.read_only,
        a.policy.global.allow_restricted_comments == b.policy.global.allow_restricted_comments,
        a.policy.global.disabled_tools == b.policy.global.disabled_tools,
        a.policy.global.public_projects.len() == b.policy.global.public_projects.len(),
    ensures
        server_facts(a) == server_facts(b),
{
}

/// A token that the server holds is used whatever the request sends.
pub proof fn held_token_ignores_the_header(
    keep: KeepView,
    a: Option<String>,
    b: Option<String>,
    email_header: Option<String>,
)
    requires
        keep.custody is Server,
    ensures
        credentials_of(keep, a, email_header) == credentials_of(keep, b, email_header),
{
}

} // verus!
