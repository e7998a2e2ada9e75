//! Configuration of the server: who holds the credentials, and how the rest of
//! it is set up from the command line.

use vstd::prelude::*;
use vstd::string::*;

use crate::client::{
    client_for, setup_view, ApiVersion, AuthMode, ClientView, JiraClient, SetupError,
};
use crate::meta::{optional_str, optional_text};
use crate::policy::{tightened, Policy};
use crate::text::{concat, concat3, decimal, numeral, trim, trimmed};

verus! {

/// The `User-Agent` of every request to Jira.
pub const USER_AGENT: &'static str = "jirakeep/0.1.0 (+https://github.com/plusky/jirakeep)";

/// Transport for the MCP server.
#[derive(Debug, Clone, Copy, PartialEq, Eq, Structural)]
pub enum Transport {
    /// Streamable HTTP. Clients send the API token with each request, unless
    /// the server holds one.
    Http,
    /// Standard input and output. Token and email are given at startup.
    Stdio,
}

impl Transport {
    /// The word for the transport.
    pub open spec fn word(self) -> Seq<char> {
        match self {
            Transport::Http => "http"@,
            Transport::Stdio => "stdio"@,
        }
    }

    /// The word for the transport.
    pub fn as_word(self) -> (res: &'static str)
        ensures
            res@ == self.word(),
    {
        match self {
            Transport::Http => "http",
            Transport::Stdio => "stdio",
        }
    }
}

/// How the server authenticates to Jira.
#[derive(Debug, Clone, Copy, PartialEq, Eq, Structural)]
pub enum AuthModeCli {
    Basic,
    Bearer,
}

impl AuthModeCli {
    /// The way of authenticating of the client.
    pub open spec fn mode(self) -> AuthMode {
        match self {
            AuthModeCli::Basic => AuthMode::Basic,
            AuthModeCli::Bearer => AuthMode::Bearer,
        }
    }

    /// The way of authenticating of the client.
    pub fn to_mode(self) -> (res: AuthMode)
        ensures
            res == self.mode(),
    {
        match self {
            AuthModeCli::Basic => AuthMode::Basic,
            AuthModeCli::Bearer => AuthMode::Bearer,
        }
    }
}

/// What is given on the command line or in the environment.
pub struct Cli {
    /// Base URL of the Jira site.
    pub jira_server: String,
    pub auth_mode: AuthModeCli,
    /// Version of the REST API; by the way of authenticating where it is not
    /// given.
    pub api_version: Option<ApiVersion>,
    pub transport: Transport,
    /// Address and port to listen on (HTTP only).
    pub host: String,
    pub port: u16,
    /// Header in which clients send the API token.
    pub api_key_header: String,
    /// Header in which clients send the account email.
    pub email_header: String,
    pub api_key: Option<String>,
    /// Path of a file that holds the API token.
    pub api_key_file: Option<String>,
    pub email: Option<String>,
    /// Path of a file that holds the account email.
    pub email_file: Option<String>,
    /// Removes the write tools. Can only tighten the policy.
    pub read_only: bool,
    /// Path of the guard policy.
    pub policy: Option<String>,
    /// Path of the audit configuration.
    pub audit_config: Option<String>,
}

/// Who holds the Jira API token.
pub enum TokenCustody {
    /// The server, one token for all.
    Server(String),
    /// Each request carries its own.
    PerRequest,
}

/// What a [`TokenCustody`] means.
#[verifier::ext_equal]
pub enum CustodyView {
    Server(Seq<char>),
    PerRequest,
}

impl View for TokenCustody {
    type V = CustodyView;

    open spec fn view(&self) -> CustodyView {
        match self {
            TokenCustody::Server(token) => CustodyView::Server(token@),
            TokenCustody::PerRequest => CustodyView::PerRequest,
        }
    }
}

/// What a secret file is for.
#[derive(Debug, Clone, Copy, PartialEq, Eq, Structural)]
pub enum Secret {
    Token,
    Email,
}

impl Secret {
    /// The words for it.
    pub open spec fn words(self) -> Seq<char> {
        match self {
            Secret::Token => "API token"@,
            Secret::Email => "email"@,
        }
    }

    /// The words for it.
    pub fn as_words(self) -> (res: &'static str)
        ensures
            res@ == self.words(),
    {
        match self {
            Secret::Token => "API token",
            Secret::Email => "email",
        }
    }
}

/// Why the configuration is refused. None of these holds a secret.
#[derive(Debug)]
pub enum ConfigError {
    /// Both a token and a token file.
    TokenTwice,
    /// No token where the server has to hold one.
    NoToken,
    /// Both an email and an email file.
    EmailTwice,
    /// No email where the server has to hold one.
    NoEmail,
    Unreadable { secret: Secret, path: String },
    Blank { secret: Secret, path: String },
}

/// What a [`ConfigError`] means.
#[verifier::ext_equal]
pub enum ConfigErrorView {
    TokenTwice,
    NoToken,
    EmailTwice,
    NoEmail,
    Unreadable { secret: Secret, path: Seq<char> },
    Blank { secret: Secret, path: Seq<char> },
}

impl View for ConfigError {
    type V = ConfigErrorView;

    open spec fn view(&self) -> ConfigErrorView {
        match self {
            ConfigError::TokenTwice => ConfigErrorView::TokenTwice,
            ConfigError::NoToken => ConfigErrorView::NoToken,
            ConfigError::EmailTwice => ConfigErrorView::EmailTwice,
            ConfigError::NoEmail => ConfigErrorView::NoEmail,
            ConfigError::Unreadable { secret, path } => ConfigErrorView::Unreadable {
                secret: *secret,
                path: path@,
            },
            ConfigError::Blank { secret, path } => ConfigErrorView::Blank {
                secret: *secret,
                path: path@,
            },
        }
    }
}

impl ConfigErrorView {
    /// The text that tells the operator.
    pub open spec fn text(self) -> Seq<char> {
        match self {
            ConfigErrorView::TokenTwice => {
                "--api-key (JIRA_API_TOKEN) and --api-key-file (JIRA_API_TOKEN_FILE) are mutually exclusive; pass exactly one"@
            },
            ConfigErrorView::NoToken => {
                "--transport stdio requires --api-key / JIRA_API_TOKEN or --api-key-file"@
            },
            ConfigErrorView::EmailTwice => {
                "--email (JIRA_EMAIL) and --email-file (JIRA_EMAIL_FILE) are mutually exclusive; pass exactly one"@
            },
            ConfigErrorView::NoEmail => {
                "Cloud Basic auth requires --email / JIRA_EMAIL or --email-file when a server-held API token is configured"@
            },
            ConfigErrorView::Unreadable { secret, path } => "failed to read "@ + secret.words()
                + " file "@ + path,
            ConfigErrorView::Blank { secret, path } => secret.words() + " file "@ + path
                + " is empty"@,
        }
    }
}

impl ConfigError {
    /// The text that tells the operator.
    pub fn message(&self) -> (res: String)
        ensures
            res@ == self@.text(),
    {
        match self {
            ConfigError::TokenTwice => {
                "--api-key (JIRA_API_TOKEN) and --api-key-file (JIRA_API_TOKEN_FILE) are mutually exclusive; pass exactly one".to_owned()
            },
            ConfigError::NoToken => {
                "--transport stdio requires --api-key / JIRA_API_TOKEN or --api-key-file".to_owned()
            },
            ConfigError::EmailTwice => {
                "--email (JIRA_EMAIL) and --email-file (JIRA_EMAIL_FILE) are mutually exclusive; pass exactly one".to_owned()
            },
            ConfigError::NoEmail => {
                "Cloud Basic auth requires --email / JIRA_EMAIL or --email-file when a server-held API token is configured".to_owned()
            },
            ConfigError::Unreadable { secret, path } => {
                let head = concat3("failed to read ", secret.as_words(), " file ");
                concat(head.as_str(), path.as_str())
            },
            ConfigError::Blank { secret, path } => {
                let head = concat3(secret.as_words(), " file ", path.as_str());
                concat(head.as_str(), " is empty")
            },
        }
    }
}

// --- secrets ----------------------------------------------------------------

/// A value that counts as given: an empty one does not.
pub open spec fn given(value: Option<String>) -> Option<Seq<char>> {
    match value {
        Some(s) => if s@.len() > 0 {
            Some(s@)
        } else {
            None
        },
        None => None,
    }
}

/// The secret in a file. `contents` is what the file holds, `None` where it
/// could not be read.
pub open spec fn secret_in(secret: Secret, path: Seq<char>, contents: Option<Seq<char>>) -> Result<
    Seq<char>,
    ConfigErrorView,
> {
    match contents {
        None => Err(ConfigErrorView::Unreadable { secret, path }),
        Some(raw) => if trimmed(raw).len() == 0 {
            Err(ConfigErrorView::Blank { secret, path })
        } else {
            Ok(trimmed(raw))
        },
    }
}

/// The token file that has to be read: one that is given, and no token beside
/// it.
pub open spec fn token_file_of(cli: Cli) -> Option<Seq<char>> {
    if given(cli.api_key) is None {
        given(cli.api_key_file)
    } else {
        None
    }
}

/// The email file that has to be read: one that is given, and no email beside
/// it.
pub open spec fn email_file_of(cli: Cli) -> Option<Seq<char>> {
    if given(cli.email) is None {
        given(cli.email_file)
    } else {
        None
    }
}

/// Who holds the token. `contents` is what the token file holds.
pub open spec fn custody_of(cli: Cli, contents: Option<Seq<char>>) -> Result<
    CustodyView,
    ConfigErrorView,
> {
    match (given(cli.api_key), given(cli.api_key_file)) {
        (Some(_), Some(_)) => Err(ConfigErrorView::TokenTwice),
        (None, Some(path)) => match secret_in(Secret::Token, path, contents) {
            Ok(token) => Ok(CustodyView::Server(token)),
            Err(e) => Err(e),
        },
        (key, None) => match (cli.transport, key) {
            (Transport::Stdio, Some(token)) => Ok(CustodyView::Server(token)),
            (Transport::Stdio, None) => Err(ConfigErrorView::NoToken),
            (Transport::Http, _) => Ok(CustodyView::PerRequest),
        },
    }
}

/// The email that goes with the token. `contents` is what the email file
/// holds. A token that the server holds needs one, unless it is a personal
/// access token.
pub open spec fn email_of(cli: Cli, custody: CustodyView, contents: Option<Seq<char>>) -> Result<
    Option<Seq<char>>,
    ConfigErrorView,
> {
    let email = match (given(cli.email), given(cli.email_file)) {
        (Some(_), Some(_)) => Err(ConfigErrorView::EmailTwice),
        (None, Some(path)) => match secret_in(Secret::Email, path, contents) {
            Ok(email) => Ok(Some(email)),
            Err(e) => Err(e),
        },
        (email, None) => Ok(email),
    };
    match email {
        Ok(None) => if custody is Server && cli.auth_mode == AuthModeCli::Basic {
            Err(ConfigErrorView::NoEmail)
        } else {
            Ok(None)
        },
        other => other,
    }
}

fn given_text(value: &Option<String>) -> (res: Option<&str>)
    ensures
        optional_str(res) == given(*value),
{
    match value {
        Some(s) => if s.as_str().unicode_len() > 0 {
            Some(s.as_str())
        } else {
            None
        },
        None => None,
    }
}

/// The secret in a file: what it holds without the white space around it.
/// Errors name the path and never the contents.
pub fn read_secret_file(secret: Secret, path: &str, contents: Option<String>) -> (res: Result<
    String,
    ConfigError,
>)
    ensures
        match res {
            Ok(s) => secret_in(secret, path@, optional_text(contents)) == Ok::<
                Seq<char>,
                ConfigErrorView,
            >(s@),
            Err(e) => secret_in(secret, path@, optional_text(contents)) == Err::<
                Seq<char>,
                ConfigErrorView,
            >(e@),
        },
{
    match contents {
        None => Err(ConfigError::Unreadable { secret, path: path.to_owned() }),
        Some(raw) => {
            let value = trim(raw.as_str());
            if value.unicode_len() == 0 {
                Err(ConfigError::Blank { secret, path: path.to_owned() })
            } else {
                Ok(value.to_owned())
            }
        },
    }
}

/// Whether the mode of a file lets its group or others at it.
pub fn open_to_others(mode: u32) -> (res: bool)
    ensures
        res == (mode & 0o077 != 0),
{
    mode & 0o077 != 0
}

impl Cli {
    /// The token file that has to be read.
    pub fn token_file(&self) -> (res: Option<&str>)
        ensures
            optional_str(res) == token_file_of(*self),
    {
        match given_text(&self.api_key) {
            Some(_) => None,
            None => given_text(&self.api_key_file),
        }
    }

    /// The email file that has to be read.
    pub fn email_file(&self) -> (res: Option<&str>)
        ensures
            optional_str(res) == email_file_of(*self),
    {
        match given_text(&self.email) {
            Some(_) => None,
            None => given_text(&self.email_file),
        }
    }

    /// Who holds the Jira API token. `contents` is what the file of
    /// [`Cli::token_file`] holds, `None` where it could not be read.
    pub fn resolve_token_custody(&self, contents: Option<String>) -> (res: Result<
        TokenCustody,
        ConfigError,
    >)
        ensures
            match res {
                Ok(custody) => custody_of(*self, optional_text(contents)) == Ok::<
                    CustodyView,
                    ConfigErrorView,
                >(custody@),
                Err(e) => custody_of(*self, optional_text(contents)) == Err::<
                    CustodyView,
                    ConfigErrorView,
                >(e@),
            },
    {
        match (given_text(&self.api_key), given_text(&self.api_key_file)) {
            (Some(_), Some(_)) => Err(ConfigError::TokenTwice),
            (None, Some(path)) => match read_secret_file(Secret::Token, path, contents) {
                Ok(token) => Ok(TokenCustody::Server(token)),
                Err(e) => Err(e),
            },
            (key, None) => match (self.transport, key) {
                (Transport::Stdio, Some(token)) => Ok(TokenCustody::Server(token.to_owned())),
                (Transport::Stdio, None) => Err(ConfigError::NoToken),
                (Transport::Http, _) => Ok(TokenCustody::PerRequest),
            },
        }
    }

    /// The account email that goes with the token. `contents` is what the file
    /// of [`Cli::email_file`] holds, `None` where it could not be read.
    pub fn resolve_email(&self, token: &TokenCustody, contents: Option<String>) -> (res: Result<
        Option<String>,
        ConfigError,
    >)
        ensures
            match res {
                Ok(email) => email_of(*self, token@, optional_text(contents)) == Ok::<
                    Option<Seq<char>>,
                    ConfigErrorView,
                >(optional_text(email)),
                Err(e) => email_of(*self, token@, optional_text(contents)) == Err::<
                    Option<Seq<char>>,
                    ConfigErrorView,
                >(e@),
            },
    {
        let email = match (given_text(&self.email), given_text(&self.email_file)) {
            (Some(_), Some(_)) => return Err(ConfigError::EmailTwice),
            (None, Some(path)) => match read_secret_file(Secret::Email, path, contents) {
                Ok(email) => Some(email),
                Err(e) => return Err(e),
            },
            (Some(email), None) => Some(email.to_owned()),
            (None, None) => None,
        };
        match (&email, token) {
            (None, TokenCustody::Server(_)) => if self.auth_mode == AuthModeCli::Basic {
                Err(ConfigError::NoEmail)
            } else {
                Ok(email)
            },
            _ => Ok(email),
        }
    }

    /// The policy as the command line tightens it: `read_only` switches
    /// read-only mode on and nothing switches it off.
    pub fn tighten(&self, policy: Policy) -> (res: Policy)
        ensures
            res@ == if self.read_only {
                tightened(policy@)
            } else {
                policy@
            },
    {
        let mut policy = policy;
        if self.read_only {
            policy.global.read_only = true;
        }
        policy
    }

    /// The client of the Jira site.
    pub fn client(&self) -> (res: Result<JiraClient, SetupError>)
        ensures
            setup_view(res) == configured_client(*self),
    {
        let mode = self.auth_mode.to_mode();
        let version = match self.api_version {
            Some(v) => v,
            None => ApiVersion::default_for(mode),
        };
        JiraClient::with_api_version(self.jira_server.as_str(), USER_AGENT, mode, version)
    }
}

/// The client that the configuration asks for.
pub open spec fn configured_client(cli: Cli) -> Result<ClientView, SetupError> {
    client_for(
        cli.jira_server@,
        USER_AGENT@,
        cli.auth_mode.mode(),
        match cli.api_version {
            Some(v) => v,
            None => ApiVersion::of_mode(cli.auth_mode.mode()),
        },
    )
}

// --- a text for logs --------------------------------------------------------

/// A text in quotes, with quotes, backslashes and what does not print escaped.
pub uninterp spec fn quoted(s: Seq<char>) -> Seq<char>;

/// An optional path in a text for logs.
pub open spec fn path_text(path: Option<String>) -> Seq<char> {
    match path {
        Some(p) => "Some("@ + quoted(p@) + ")"@,
        None => "None"@,
    }
}

/// A secret in a text for logs.
pub open spec fn secret_text(secret: Option<String>) -> Seq<char> {
    match secret {
        Some(_) => "Some(\"<redacted>\")"@,
        None => "None"@,
    }
}

/// The configuration in a text for logs.
pub open spec fn cli_text(cli: Cli) -> Seq<char> {
    "Cli { jira_server: "@ + quoted(cli.jira_server@) + ", transport: "@ + match cli.transport {
        Transport::Http => "Http"@,
        Transport::Stdio => "Stdio"@,
    } + ", host: "@ + quoted(cli.host@) + ", port: "@ + numeral(cli.port as nat)
        + ", api_key_header: "@ + quoted(cli.api_key_header@) + ", api_key: "@ + secret_text(
        cli.api_key,
    ) + ", api_key_file: "@ + path_text(cli.api_key_file) + ", email: "@ + secret_text(cli.email)
        + ", email_file: "@ + path_text(cli.email_file) + ", read_only: "@ + if cli.read_only {
        "true"@
    } else {
        "false"@
    } + ", policy: "@ + path_text(cli.policy) + " }"@
}

/// `<str as Debug>::fmt`, by way of `format!`: the text in quotes, with quotes,
/// backslashes and what does not print escaped. The result is named by
/// [`quoted`], as a function of the text alone; which characters print is for
/// the Unicode tables of the standard library to say, and is not stated.
#[verifier::external_body]
fn show_quoted(s: &str) -> (res: String)
    ensures
        res@ == quoted(s@),
{
    format!("{s:?}")
}

fn show_path(path: &Option<String>) -> (res: String)
    ensures
        res@ == path_text(*path),
{
    match path {
        Some(p) => concat3("Some(", show_quoted(p.as_str()).as_str(), ")"),
        None => "None".to_owned(),
    }
}

fn show_secret(secret: &Option<String>) -> (res: String)
    ensures
        res@ == secret_text(*secret),
{
    match secret {
        Some(_) => "Some(\"<redacted>\")".to_owned(),
        None => "None".to_owned(),
    }
}

impl Cli {
    /// A text for logs that tells neither the token nor the email.
    pub fn debug_text(&self) -> (res: String)
        ensures
            res@ == cli_text(*self),
    {
        let mut out = "Cli { jira_server: ".to_owned();
        out.append(show_quoted(self.jira_server.as_str()).as_str());
        out.append(", transport: ");
        out.append(
            match self.transport {
                Transport::Http => "Http",
                Transport::Stdio => "Stdio",
            },
        );
        out.append(", host: ");
        out.append(show_quoted(self.host.as_str()).as_str());
        out.append(", port: ");
        out.append(decimal(self.port as u64).as_str());
        out.append(", api_key_header: ");
        out.append(show_quoted(self.api_key_header.as_str()).as_str());
        out.append(", api_key: ");
        out.append(show_secret(&self.api_key).as_str());
        out.append(", api_key_file: ");
        out.append(show_path(&self.api_key_file).as_str());
        out.append(", email: ");
        out.append(show_secret(&self.email).as_str());
        out.append(", email_file: ");
        out.append(show_path(&self.email_file).as_str());
        out.append(", read_only: ");
        out.append(
            if self.read_only {
                "true"
            } else {
                "false"
            },
        );
        out.append(", policy: ");
        out.append(show_path(&self.policy).as_str());
        out.append(" }");
        out
    }
}

// --- laws -------------------------------------------------------------------

/// The text for logs tells nothing of the token and the email but whether they
/// are given: it is the same for any two configurations that differ in no more
/// than what these are.
pub proof fn log_text_tells_no_secret(a: Cli, b: Cli)
    requires
        a.jira_server == b.jira_server,
        a.transport == b.transport,
        a.host == b.host,
        a.port == b.port,
        a.api_key_header == b.api_key_header,
        a.api_key is Some == b.api_key is Some,
        a.api_key_file == b.api_key_file,
        a.email is Some == b.email is Some,
        a.email_file == b.email_file,
        a.read_only == b.read_only,
        a.policy == b.policy,
    ensures
        cli_text(a) == cli_text(b),
{
}

/// An error about a secret file tells nothing of what the file holds: it is
/// the same for any two contents that it comes on.
pub proof fn secret_error_tells_no_contents(
    secret: Secret,
    path: Seq<char>,
    a: Seq<char>,
    b: Seq<char>,
)
    ensures
        secret_in(secret, path, Some(a)) is Err && secret_in(secret, path, Some(b)) is Err
            ==> secret_in(secret, path, Some(a)) == secret_in(secret, path, Some(b)),
{
}

/// Over standard input and output the server holds the token or does not
/// start.
pub proof fn stdio_never_asks_per_request(cli: Cli, contents: Option<Seq<char>>)
    requires
        cli.transport == Transport::Stdio,
    ensures
        custody_of(cli, contents) != Ok::<CustodyView, ConfigErrorView>(CustodyView::PerRequest),
{
}

} // verus!
