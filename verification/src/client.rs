//! The Jira REST client: which request each call sends. What the replies mean is
//! told in [`crate::reply`].
//!
//! A client is made for one site, one way of authenticating and one version of
//! the REST API (v3 is the Cloud surface, v2 the Data Center one). It holds no
//! secrets: credentials come with each call and go into the request alone.

use vstd::prelude::*;
use vstd::string::*;

use vstd::utf8::{encode_scalar, encode_utf8, encode_utf8_decode_utf8};

use crate::json::{items_view, text_array, Json, JsonView, Members};
use crate::keyset::texts;
use crate::meta::{optional_str, optional_text};
use crate::reply::{download_request, ParsedUrl};
use crate::text::{
    concat, concat3, decimal, hex_byte, hex_digit, numeral, push_hex_upper, trim,
    trim_end_slashes, trimmed, without_end_slashes,
};

verus! {

/// Fields fetched to classify an issue.
pub const CLASSIFY_FIELDS: &'static str = "summary,project,status,priority,issuetype,labels,components,security,created,reporter,assignee,issuelinks,parent,subtasks";

/// How credentials are attached to each request.
#[derive(Debug, Clone, Copy, PartialEq, Eq, Structural)]
pub enum AuthMode {
    /// Account email and API token, as on Jira Cloud.
    Basic,
    /// A personal access token, as on Jira Data Center.
    Bearer,
}

impl Default for AuthMode {
    fn default() -> (res: Self)
        ensures
            res == AuthMode::Basic,
    {
        AuthMode::Basic
    }
}

/// Version of the REST API that a client targets.
#[derive(Debug, Clone, Copy, PartialEq, Eq, Structural)]
pub enum ApiVersion {
    /// `/rest/api/2`, as on Jira Data Center.
    V2,
    /// `/rest/api/3`, as on Jira Cloud.
    V3,
}

impl ApiVersion {
    /// The version that goes with a way of authenticating where none is named.
    pub open spec fn of_mode(mode: AuthMode) -> ApiVersion {
        match mode {
            AuthMode::Basic => ApiVersion::V3,
            AuthMode::Bearer => ApiVersion::V2,
        }
    }

    /// The path segment.
    pub open spec fn segment(self) -> Seq<char> {
        match self {
            ApiVersion::V2 => "2"@,
            ApiVersion::V3 => "3"@,
        }
    }

    /// The version that goes with a way of authenticating where none is named.
    pub fn default_for(mode: AuthMode) -> (res: ApiVersion)
        ensures
            res == ApiVersion::of_mode(mode),
    {
        match mode {
            AuthMode::Basic => ApiVersion::V3,
            AuthMode::Bearer => ApiVersion::V2,
        }
    }

    /// The path segment.
    pub fn as_str(self) -> (res: &'static str)
        ensures
            res@ == self.segment(),
    {
        match self {
            ApiVersion::V2 => "2",
            ApiVersion::V3 => "3",
        }
    }
}

/// Credentials for one request. Under [`AuthMode::Bearer`] the email is not
/// used.
pub struct Credentials {
    pub email: String,
    pub token: String,
}

impl Credentials {
    /// A text for logs that tells neither the email nor the token.
    pub fn debug_text(&self) -> (res: String)
        ensures
            res@ == "Credentials { email: \"<redacted>\", token: \"<redacted>\" }"@,
    {
        "Credentials { email: \"<redacted>\", token: \"<redacted>\" }".to_owned()
    }
}

impl Clone for Credentials {
    fn clone(&self) -> (res: Self)
        ensures
            res.email@ == self.email@,
            res.token@ == self.token@,
    {
        Credentials { email: self.email.clone(), token: self.token.clone() }
    }
}

// --- requests ---------------------------------------------------------------

#[derive(Debug, Clone, Copy, PartialEq, Eq, Structural)]
pub enum Method {
    Get,
    Post,
    Put,
}

/// What a request carries.
pub enum Payload {
    Nothing,
    /// A JSON document.
    Document(Json),
    /// A file, as the part `file` of a multipart form.
    File { filename: String, data: Vec<u8> },
}

/// What a [`Payload`] means.
#[verifier::ext_equal]
pub enum PayloadView {
    Nothing,
    Document(JsonView),
    File { filename: Seq<char>, data: Seq<u8> },
}

impl View for Payload {
    type V = PayloadView;

    open spec fn view(&self) -> PayloadView {
        match self {
            Payload::Nothing => PayloadView::Nothing,
            Payload::Document(v) => PayloadView::Document(v@),
            Payload::File { filename, data } => PayloadView::File {
                filename: filename@,
                data: data@,
            },
        }
    }
}

/// The `Authorization` of a request.
pub enum Authorization {
    /// The email and the token, for the Basic scheme.
    Basic { email: String, token: String },
    /// The whole header.
    Header(String),
}

/// What an [`Authorization`] means.
#[verifier::ext_equal]
pub enum AuthorizationView {
    Basic { email: Seq<char>, token: Seq<char> },
    Header(Seq<char>),
}

impl View for Authorization {
    type V = AuthorizationView;

    open spec fn view(&self) -> AuthorizationView {
        match self {
            Authorization::Basic { email, token } => AuthorizationView::Basic {
                email: email@,
                token: token@,
            },
            Authorization::Header(s) => AuthorizationView::Header(s@),
        }
    }
}

/// What is read of the response.
#[derive(Debug, Clone, Copy, PartialEq, Eq, Structural)]
pub enum Transfer {
    /// The body as text.
    Text,
    /// The body as bytes, no more than the limit where there is one.
    Bytes { limit: Option<u64> },
}

/// A request to the Jira site.
pub struct Request {
    pub method: Method,
    pub url: String,
    pub query: Vec<(String, String)>,
    pub headers: Vec<(String, String)>,
    pub authorization: Authorization,
    pub payload: Payload,
    pub transfer: Transfer,
}

/// What a [`Request`] means.
#[verifier::ext_equal]
pub struct RequestView {
    pub method: Method,
    pub url: Seq<char>,
    pub query: Seq<(Seq<char>, Seq<char>)>,
    pub headers: Seq<(Seq<char>, Seq<char>)>,
    pub authorization: AuthorizationView,
    pub payload: PayloadView,
    pub transfer: Transfer,
}

/// The characters of pairs of texts.
pub open spec fn pairs(list: Seq<(String, String)>) -> Seq<(Seq<char>, Seq<char>)> {
    Seq::new(list.len(), |i: int| (list[i].0@, list[i].1@))
}

impl View for Request {
    type V = RequestView;

    open spec fn view(&self) -> RequestView {
        RequestView {
            method: self.method,
            url: self.url@,
            query: pairs(self.query@),
            headers: pairs(self.headers@),
            authorization: self.authorization@,
            payload: self.payload@,
            transfer: self.transfer,
        }
    }
}

// --- the client -------------------------------------------------------------

/// Why no client can be made.
#[derive(Debug, Clone, Copy, PartialEq, Eq, Structural)]
pub enum SetupError {
    BlankUserAgent,
    EmptyBaseUrl,
}

impl SetupError {
    /// The text that tells the operator.
    pub open spec fn text(self) -> Seq<char> {
        match self {
            SetupError::BlankUserAgent => {
                "jira client: user_agent must name the calling program, and was blank"@
            },
            SetupError::EmptyBaseUrl => "jira client: base_url must not be empty"@,
        }
    }

    /// The text that tells the operator.
    pub fn message(self) -> (res: String)
        ensures
            res@ == self.text(),
    {
        match self {
            SetupError::BlankUserAgent => {
                "jira client: user_agent must name the calling program, and was blank".to_owned()
            },
            SetupError::EmptyBaseUrl => "jira client: base_url must not be empty".to_owned(),
        }
    }
}

/// Client of one Jira site.
#[derive(Debug)]
pub struct JiraClient {
    base_url: String,
    api_url: String,
    auth_mode: AuthMode,
    api_version: ApiVersion,
    user_agent: String,
}

/// What a [`JiraClient`] means.
#[verifier::ext_equal]
pub struct ClientView {
    pub base_url: Seq<char>,
    pub auth_mode: AuthMode,
    pub api_version: ApiVersion,
    pub user_agent: Seq<char>,
}

/// The versioned base of the REST paths.
pub open spec fn api_base(client: ClientView) -> Seq<char> {
    client.base_url + "/rest/api/"@ + client.api_version.segment()
}

impl View for JiraClient {
    type V = ClientView;

    closed spec fn view(&self) -> ClientView {
        ClientView {
            base_url: self.base_url@,
            auth_mode: self.auth_mode,
            api_version: self.api_version,
            user_agent: self.user_agent@,
        }
    }
}

/// The client for a site, or why there is none.
pub open spec fn client_for(
    base_url: Seq<char>,
    user_agent: Seq<char>,
    auth_mode: AuthMode,
    api_version: ApiVersion,
) -> Result<ClientView, SetupError> {
    if trimmed(user_agent).len() == 0 {
        Err(SetupError::BlankUserAgent)
    } else if without_end_slashes(base_url).len() == 0 {
        Err(SetupError::EmptyBaseUrl)
    } else {
        Ok(
            ClientView {
                base_url: without_end_slashes(base_url),
                auth_mode,
                api_version,
                user_agent,
            },
        )
    }
}

/// What the outcome of making a client means.
pub open spec fn setup_view(outcome: Result<JiraClient, SetupError>) -> Result<
    ClientView,
    SetupError,
> {
    match outcome {
        Ok(client) => Ok(client@),
        Err(e) => Err(e),
    }
}

impl JiraClient {
    #[verifier::type_invariant]
    spec fn consistent(&self) -> bool {
        self.api_url@ == api_base(self@)
    }

    /// A client of the site at `base_url` with Basic authentication.
    pub fn new(base_url: &str, user_agent: &str) -> (res: Result<JiraClient, SetupError>)
        ensures
            setup_view(res) == client_for(
                base_url@,
                user_agent@,
                AuthMode::Basic,
                ApiVersion::V3,
            ),
    {
        JiraClient::with_auth_mode(base_url, user_agent, AuthMode::Basic)
    }

    /// A client with a given way of authenticating, and the version of the API
    /// that goes with it.
    pub fn with_auth_mode(base_url: &str, user_agent: &str, auth_mode: AuthMode) -> (res: Result<
        JiraClient,
        SetupError,
    >)
        ensures
            setup_view(res) == client_for(
                base_url@,
                user_agent@,
                auth_mode,
                ApiVersion::of_mode(auth_mode),
            ),
    {
        JiraClient::with_api_version(
            base_url,
            user_agent,
            auth_mode,
            ApiVersion::default_for(auth_mode),
        )
    }

    /// A client with a given way of authenticating and version of the API.
    pub fn with_api_version(
        base_url: &str,
        user_agent: &str,
        auth_mode: AuthMode,
        api_version: ApiVersion,
    ) -> (res: Result<JiraClient, SetupError>)
        ensures
            setup_view(res) == client_for(base_url@, user_agent@, auth_mode, api_version),
    {
        if trim(user_agent).unicode_len() == 0 {
            return Err(SetupError::BlankUserAgent);
        }
        let base = trim_end_slashes(base_url);
        if base.unicode_len() == 0 {
            return Err(SetupError::EmptyBaseUrl);
        }
        let api_url = concat3(base, "/rest/api/", api_version.as_str());
        Ok(
            JiraClient {
                base_url: base.to_owned(),
                api_url,
                auth_mode,
                api_version,
                user_agent: user_agent.to_owned(),
            },
        )
    }

    pub fn auth_mode(&self) -> (res: AuthMode)
        ensures
            res == self@.auth_mode,
    {
        self.auth_mode
    }

    pub fn base_url(&self) -> (res: &str)
        ensures
            res@ == self@.base_url,
    {
        self.base_url.as_str()
    }

    pub fn api_version(&self) -> (res: ApiVersion)
        ensures
            res == self@.api_version,
    {
        self.api_version
    }

    /// The versioned base of the REST paths, as in `https://host/rest/api/2`.
    pub fn api_url(&self) -> (res: &str)
        ensures
            res@ == api_base(self@),
    {
        proof {
            use_type_invariant(self);
        }
        self.api_url.as_str()
    }

    /// The `User-Agent` of every request.
    pub fn user_agent(&self) -> (res: &str)
        ensures
            res@ == self@.user_agent,
    {
        self.user_agent.as_str()
    }
}

// --- paths ------------------------------------------------------------------

/// The bytes that stand for themselves in a path segment.
pub open spec fn plain_byte(b: u8) -> bool {
    ||| 'A' as u8 <= b <= 'Z' as u8
    ||| 'a' as u8 <= b <= 'z' as u8
    ||| '0' as u8 <= b <= '9' as u8
    ||| b == '-' as u8
    ||| b == '_' as u8
    ||| b == '.' as u8
}

/// A byte in a path segment: itself, or a percent sign and its two hexadecimal
/// digits.
pub open spec fn escaped_byte(b: u8) -> Seq<char> {
    if plain_byte(b) {
        seq![b as char]
    } else {
        seq!['%'] + hex_byte(b, 'A')
    }
}

/// Bytes in a path segment.
pub open spec fn escaped_bytes(bytes: Seq<u8>) -> Seq<char>
    decreases bytes.len(),
{
    if bytes.len() == 0 {
        Seq::empty()
    } else {
        escaped_bytes(bytes.drop_last()) + escaped_byte(bytes.last())
    }
}

/// A text in a path segment.
pub open spec fn escaped(s: Seq<char>) -> Seq<char> {
    escaped_bytes(encode_utf8(s))
}

/// Escapes a text for a path segment.
pub fn urlencoding_path(s: &str) -> (res: String)
    ensures
        res@ == escaped(s@),
{
    let bytes = s.as_bytes();
    let mut out = String::new();
    let mut i: usize = 0;
    assert(bytes@.take(0) =~= Seq::empty());
    while i < bytes.len()
        invariant
            i <= bytes.len(),
            bytes@ == encode_utf8(s@),
            out@ == escaped_bytes(bytes@.take(i as int)),
        decreases bytes.len() - i,
    {
        let b = bytes[i];
        let ghost held = out@;
        proof {
            assert(bytes@.take(i + 1).drop_last() =~= bytes@.take(i as int));
            assert(bytes@.take(i + 1).last() == b);
        }
        if ('A' as u8 <= b && b <= 'Z' as u8) || ('a' as u8 <= b && b <= 'z' as u8) || ('0' as u8
            <= b && b <= '9' as u8) || b == '-' as u8 || b == '_' as u8 || b == '.' as u8 {
            out.push(b as char);
            assert(out@ =~= held + escaped_byte(b));
        } else {
            out.push('%');
            push_hex_upper(&mut out, b);
            assert(out@ =~= held + escaped_byte(b));
        }
        i += 1;
    }
    assert(bytes@.take(bytes@.len() as int) =~= bytes@);
    out
}

/// The characters of an escaped text.
pub open spec fn segment_char(c: char) -> bool {
    ||| 'A' <= c <= 'Z'
    ||| 'a' <= c <= 'z'
    ||| '0' <= c <= '9'
    ||| c == '-'
    ||| c == '_'
    ||| c == '.'
    ||| c == '%'
}

/// An escaped text stays within its path segment: it holds letters, digits,
/// `-`, `_`, `.` and `%` and nothing else, so neither a slash nor a question
/// mark nor a hash.
pub proof fn escaped_text_stays_in_its_segment(s: Seq<char>, i: int)
    requires
        0 <= i < escaped(s).len(),
    ensures
        segment_char(escaped(s)[i]),
{
    lemma_escaped_chars(encode_utf8(s), i);
}

proof fn lemma_escaped_chars(bytes: Seq<u8>, i: int)
    requires
        0 <= i < escaped_bytes(bytes).len(),
    ensures
        segment_char(escaped_bytes(bytes)[i]),
    decreases bytes.len(),
{
    let earlier = escaped_bytes(bytes.drop_last());
    if i < earlier.len() {
        lemma_escaped_chars(bytes.drop_last(), i);
        assert(escaped_bytes(bytes)[i] == earlier[i]);
    } else {
        let b = bytes.last();
        assert(escaped_bytes(bytes)[i] == escaped_byte(b)[i - earlier.len()]);
        assert(0 <= b as int / 16 < 16);
        assert(0 <= b as int % 16 < 16);
    }
}

/// The value of a hexadecimal digit with capital letters.
pub open spec fn hex_value(c: char) -> int {
    if c <= '9' {
        c as int - '0' as int
    } else {
        c as int - 'A' as int + 10
    }
}

/// The bytes that an escaped text stands for: a percent sign and two digits
/// stand for one byte, any other character for itself.
pub open spec fn unescaped(t: Seq<char>) -> Seq<u8>
    decreases t.len(),
{
    if t.len() == 0 {
        Seq::empty()
    } else if t[0] == '%' && t.len() >= 3 {
        seq![(16 * hex_value(t[1]) + hex_value(t[2])) as u8] + unescaped(t.skip(3))
    } else {
        seq![t[0] as u8] + unescaped(t.skip(1))
    }
}

proof fn lemma_unescaped_byte(b: u8, rest: Seq<char>)
    ensures
        unescaped(escaped_byte(b) + rest) == seq![b] + unescaped(rest),
{
    let t = escaped_byte(b) + rest;
    if plain_byte(b) {
        assert(t[0] == b as char);
        assert(t.skip(1) =~= rest);
        assert((b as char) as u8 == b);
    } else {
        assert(t[0] == '%');
        assert(t.skip(3) =~= rest);
        assert(t[1] == hex_digit(b as int / 16, 'A'));
        assert(t[2] == hex_digit(b as int % 16, 'A'));
        assert(hex_value(t[1]) == b as int / 16);
        assert(hex_value(t[2]) == b as int % 16);
    }
}

proof fn lemma_escaped_front(bytes: Seq<u8>)
    requires
        bytes.len() > 0,
    ensures
        escaped_bytes(bytes) == escaped_byte(bytes[0]) + escaped_bytes(bytes.drop_first()),
    decreases bytes.len(),
{
    let rest = bytes.drop_first();
    if rest.len() == 0 {
        reveal_with_fuel(escaped_bytes, 2);
        assert(bytes.drop_last() =~= Seq::empty());
        assert(escaped_bytes(bytes) =~= escaped_byte(bytes[0]) + escaped_bytes(rest));
    } else {
        lemma_escaped_front(bytes.drop_last());
        assert(bytes.drop_last().drop_first() =~= rest.drop_last());
        assert(rest.last() == bytes.last());
        assert(escaped_bytes(bytes) =~= escaped_byte(bytes[0]) + escaped_bytes(rest));
    }
}

proof fn lemma_unescaped(bytes: Seq<u8>)
    ensures
        unescaped(escaped_bytes(bytes)) == bytes,
    decreases bytes.len(),
{
    if bytes.len() > 0 {
        lemma_escaped_front(bytes);
        lemma_unescaped_byte(bytes[0], escaped_bytes(bytes.drop_first()));
        lemma_unescaped(bytes.drop_first());
        assert(seq![bytes[0]] + bytes.drop_first() =~= bytes);
    }
}

/// Undoing the escapes of a text gives back its UTF-8 bytes.
pub proof fn unescaping_gives_the_text_back(s: Seq<char>)
    ensures
        unescaped(escaped(s)) == encode_utf8(s),
{
    lemma_unescaped(encode_utf8(s));
}

/// Two texts are escaped alike only where they are equal.
pub proof fn escaping_keeps_texts_apart(a: Seq<char>, b: Seq<char>)
    requires
        escaped(a) == escaped(b),
    ensures
        a == b,
{
    unescaping_gives_the_text_back(a);
    unescaping_gives_the_text_back(b);
    encode_utf8_decode_utf8(a);
    encode_utf8_decode_utf8(b);
}

/// The bytes of a text of letters, digits, `-`, `_` and `.` are its characters.
proof fn lemma_plain_bytes(s: Seq<char>)
    requires
        forall|i: int| 0 <= i < s.len() ==> segment_char(#[trigger] s[i]) && s[i] != '%',
    ensures
        encode_utf8(s).len() == s.len(),
        forall|i: int|
            0 <= i < s.len() ==> (#[trigger] encode_utf8(s)[i]) as char == s[i] && plain_byte(
                encode_utf8(s)[i],
            ),
    decreases s.len(),
{
    if s.len() > 0 {
        let rest = s.drop_first();
        assert forall|i: int| 0 <= i < rest.len() implies segment_char(#[trigger] rest[i])
            && rest[i] != '%' by {
            assert(rest[i] == s[i + 1]);
        }
        lemma_plain_bytes(rest);
        let u = s[0] as u32;
        assert(u < 0x80);
        assert(u & 0x7F == u) by (bit_vector)
            requires
                u < 0x80,
        ;
        assert(encode_scalar(u) =~= seq![u as u8]);
        assert(encode_utf8(s) =~= seq![u as u8] + encode_utf8(rest));
        assert forall|i: int| 0 <= i < s.len() implies (#[trigger] encode_utf8(s)[i]) as char
            == s[i] && plain_byte(encode_utf8(s)[i]) by {
            if i > 0 {
                assert(encode_utf8(s)[i] == encode_utf8(rest)[i - 1]);
                assert(s[i] == rest[i - 1]);
            }
        }
    }
}

proof fn lemma_escaped_plain(bytes: Seq<u8>)
    requires
        forall|i: int| 0 <= i < bytes.len() ==> plain_byte(#[trigger] bytes[i]),
    ensures
        escaped_bytes(bytes) == Seq::new(bytes.len(), |i: int| bytes[i] as char),
    decreases bytes.len(),
{
    if bytes.len() > 0 {
        lemma_escaped_plain(bytes.drop_last());
    }
    assert(escaped_bytes(bytes) =~= Seq::new(bytes.len(), |i: int| bytes[i] as char));
}

/// A text of letters, digits, `-`, `_` and `.` is escaped as itself: an issue
/// key stands in a path as it is.
pub proof fn plain_text_is_escaped_as_itself(s: Seq<char>)
    requires
        forall|i: int| 0 <= i < s.len() ==> segment_char(#[trigger] s[i]) && s[i] != '%',
    ensures
        escaped(s) == s,
{
    lemma_plain_bytes(s);
    lemma_escaped_plain(encode_utf8(s));
    assert(escaped(s) =~= s);
}

// --- what each call sends ---------------------------------------------------

/// The document of a paragraph of plain text, in the Atlassian Document Format.
pub open spec fn adf(text: Seq<char>) -> JsonView {
    let leaf = JsonView::Object(
        map!["type"@ => JsonView::Text("text"@), "text"@ => JsonView::Text(text)],
    );
    let paragraph = JsonView::Object(
        map!["type"@ => JsonView::Text("paragraph"@), "content"@ => JsonView::Array(seq![leaf])],
    );
    JsonView::Object(
        map![
            "type"@ => JsonView::Text("doc"@),
            "version"@ => JsonView::Unsigned(1),
            "content"@ => JsonView::Array(seq![paragraph]),
        ],
    )
}

/// A JSON array of one document.
fn array_of(item: Json) -> (res: Json)
    ensures
        res@ == JsonView::Array(seq![item@]),
{
    let items: Vec<Json> = vec![item];
    assert(items_view(items@) =~= seq![item@]);
    Json::Array(items)
}

/// The document of a paragraph of plain text, in the Atlassian Document Format.
pub fn plain_to_adf(text: &str) -> (res: Json)
    ensures
        res@ == adf(text@),
{
    let leaf = Json::Object(
        Members::new().with("type", Json::text("text")).with("text", Json::text(text)),
    );
    let paragraph = Json::Object(
        Members::new().with("type", Json::text("paragraph")).with("content", array_of(leaf)),
    );
    Json::Object(
        Members::new().with("type", Json::text("doc")).with("version", Json::Unsigned(1)).with(
            "content",
            array_of(paragraph),
        ),
    )
}

/// The `Authorization` that goes with a way of authenticating.
pub open spec fn authorization_of(mode: AuthMode, creds: Credentials) -> AuthorizationView {
    match mode {
        AuthMode::Basic => AuthorizationView::Basic { email: creds.email@, token: creds.token@ },
        AuthMode::Bearer => AuthorizationView::Header("Bearer "@ + creds.token@),
    }
}

/// The header that asks for JSON.
pub open spec fn accept_json() -> (Seq<char>, Seq<char>) {
    ("Accept"@, "application/json"@)
}

/// A request to a path of the REST API whose reply is read as text.
pub open spec fn api_request(
    client: ClientView,
    creds: Credentials,
    method: Method,
    path: Seq<char>,
    payload: PayloadView,
) -> RequestView {
    RequestView {
        method,
        url: api_base(client) + path,
        query: Seq::empty(),
        headers: seq![accept_json()],
        authorization: authorization_of(client.auth_mode, creds),
        payload,
        transfer: Transfer::Text,
    }
}

/// A `GET` of a path of the REST API.
pub open spec fn get_request(
    client: ClientView,
    creds: Credentials,
    path: Seq<char>,
    query: Seq<(Seq<char>, Seq<char>)>,
) -> RequestView {
    RequestView {
        query,
        ..api_request(client, creds, Method::Get, path, PayloadView::Nothing)
    }
}

/// A request that carries a JSON document.
pub open spec fn json_request(
    client: ClientView,
    creds: Credentials,
    method: Method,
    path: Seq<char>,
    document: JsonView,
) -> RequestView {
    api_request(client, creds, method, path, PayloadView::Document(document))
}

/// The path of an issue, and what follows it.
pub open spec fn issue_path(key: Seq<char>, rest: Seq<char>) -> Seq<char> {
    "/issue/"@ + escaped(key) + rest
}

/// The request for an issue, with a projection of its fields where one is
/// given.
pub open spec fn issue_request(
    client: ClientView,
    creds: Credentials,
    key: Seq<char>,
    fields: Option<Seq<char>>,
) -> RequestView {
    get_request(
        client,
        creds,
        issue_path(key, Seq::empty()),
        match fields {
            Some(f) => seq![("fields"@, f)],
            None => Seq::empty(),
        },
    )
}

/// The request for the changelog of an issue.
pub open spec fn changelog_request(
    client: ClientView,
    creds: Credentials,
    key: Seq<char>,
    start_at: int,
    max_results: int,
) -> RequestView {
    get_request(
        client,
        creds,
        issue_path(key, "/changelog"@),
        seq![
            ("startAt"@, numeral(start_at as nat)),
            ("maxResults"@, numeral(max_results as nat)),
        ],
    )
}

/// The request for the comments of an issue.
pub open spec fn comments_request(
    client: ClientView,
    creds: Credentials,
    key: Seq<char>,
    start_at: int,
    max_results: int,
) -> RequestView {
    get_request(
        client,
        creds,
        issue_path(key, "/comment"@),
        seq![
            ("startAt"@, numeral(start_at as nat)),
            ("maxResults"@, numeral(max_results as nat)),
            ("orderBy"@, "created"@),
        ],
    )
}

/// The request that adds a comment.
pub open spec fn comment_request(
    client: ClientView,
    creds: Credentials,
    key: Seq<char>,
    text: Seq<char>,
    visibility: Option<JsonView>,
) -> RequestView {
    json_request(
        client,
        creds,
        Method::Post,
        issue_path(key, "/comment"@),
        JsonView::Object(
            match visibility {
                Some(v) => map!["body"@ => adf(text)].insert("visibility"@, v),
                None => map!["body"@ => adf(text)],
            },
        ),
    )
}

/// The request for a saved filter.
pub open spec fn filter_request(
    client: ClientView,
    creds: Credentials,
    filter_id: Seq<char>,
) -> RequestView {
    get_request(client, creds, "/filter/"@ + escaped(filter_id), Seq::empty())
}

/// The request for the transitions that an issue can take.
pub open spec fn transitions_request(
    client: ClientView,
    creds: Credentials,
    key: Seq<char>,
) -> RequestView {
    get_request(client, creds, issue_path(key, "/transitions"@), Seq::empty())
}

/// The request that takes a transition.
pub open spec fn transition_request(
    client: ClientView,
    creds: Credentials,
    key: Seq<char>,
    id: Seq<char>,
    fields: Option<JsonView>,
    comment: Option<Seq<char>>,
) -> RequestView {
    json_request(
        client,
        creds,
        Method::Post,
        issue_path(key, "/transitions"@),
        transition_document(id, fields, comment),
    )
}

/// The request that changes fields of an issue.
pub open spec fn update_request(
    client: ClientView,
    creds: Credentials,
    key: Seq<char>,
    fields: JsonView,
) -> RequestView {
    json_request(
        client,
        creds,
        Method::Put,
        issue_path(key, Seq::empty()),
        JsonView::Object(map!["fields"@ => fields]),
    )
}

/// The request that files an issue.
pub open spec fn create_request(
    client: ClientView,
    creds: Credentials,
    fields: JsonView,
) -> RequestView {
    json_request(
        client,
        creds,
        Method::Post,
        "/issue"@,
        JsonView::Object(map!["fields"@ => fields]),
    )
}

/// The request that links two issues.
pub open spec fn link_request(
    client: ClientView,
    creds: Credentials,
    link_type: Seq<char>,
    inward: Seq<char>,
    outward: Seq<char>,
) -> RequestView {
    json_request(
        client,
        creds,
        Method::Post,
        "/issueLink"@,
        link_document(link_type, inward, outward),
    )
}

/// What a search asks for.
pub struct SearchQuery {
    pub jql: String,
    pub fields: Vec<String>,
    pub max_results: u32,
    pub next_page_token: Option<String>,
    pub start_at: Option<u32>,
}

/// What a [`SearchQuery`] means.
#[verifier::ext_equal]
pub struct QueryView {
    pub jql: Seq<char>,
    pub fields: Seq<Seq<char>>,
    pub max_results: int,
    pub next_page_token: Option<Seq<char>>,
    pub start_at: Option<u32>,
}

impl View for SearchQuery {
    type V = QueryView;

    open spec fn view(&self) -> QueryView {
        QueryView {
            jql: self.jql@,
            fields: texts(self.fields@),
            max_results: self.max_results as int,
            next_page_token: optional_text(self.next_page_token),
            start_at: self.start_at,
        }
    }
}

/// The document of a search by offset.
pub open spec fn offset_search(query: QueryView) -> JsonView {
    JsonView::Object(
        map![
            "jql"@ => JsonView::Text(query.jql),
            "maxResults"@ => JsonView::Unsigned(query.max_results as nat),
            "fields"@ => text_array(query.fields),
            "startAt"@ => JsonView::Unsigned(
                match query.start_at {
                    Some(n) => n as nat,
                    None => 0,
                },
            ),
        ],
    )
}

/// The document of a search by page token.
pub open spec fn token_search(query: QueryView) -> JsonView {
    let base = map![
        "jql"@ => JsonView::Text(query.jql),
        "maxResults"@ => JsonView::Unsigned(query.max_results as nat),
        "fields"@ => text_array(query.fields),
    ];
    JsonView::Object(
        match query.next_page_token {
            Some(token) => base.insert("nextPageToken"@, JsonView::Text(token)),
            None => base,
        },
    )
}

/// The search by offset.
pub open spec fn offset_search_request(
    client: ClientView,
    creds: Credentials,
    query: QueryView,
) -> RequestView {
    json_request(client, creds, Method::Post, "/search"@, offset_search(query))
}

/// The first request of a search: by token on v3, by offset on v2.
pub open spec fn search_request(
    client: ClientView,
    creds: Credentials,
    query: QueryView,
) -> RequestView {
    match client.api_version {
        ApiVersion::V2 => offset_search_request(client, creds, query),
        ApiVersion::V3 => json_request(
            client,
            creds,
            Method::Post,
            "/search/jql"@,
            token_search(query),
        ),
    }
}

fn owned_pair(a: &str, b: &str) -> (res: (String, String))
    ensures
        res.0@ == a@,
        res.1@ == b@,
{
    (a.to_owned(), b.to_owned())
}

impl JiraClient {
    /// The `Authorization` of a request.
    fn apply_auth(&self, creds: &Credentials) -> (res: Authorization)
        ensures
            res@ == authorization_of(self@.auth_mode, *creds),
    {
        match self.auth_mode {
            AuthMode::Basic => Authorization::Basic {
                email: creds.email.clone(),
                token: creds.token.clone(),
            },
            AuthMode::Bearer => Authorization::Header(concat("Bearer ", creds.token.as_str())),
        }
    }

    /// A request to a path of the REST API.
    fn api_call(&self, method: Method, creds: &Credentials, path: &str, payload: Payload) -> (res:
        Request)
        ensures
            res@ == api_request(self@, *creds, method, path@, payload@),
    {
        let headers: Vec<(String, String)> = vec![owned_pair("Accept", "application/json")];
        let query: Vec<(String, String)> = Vec::new();
        let res = Request {
            method,
            url: concat(self.api_url(), path),
            query,
            headers,
            authorization: self.apply_auth(creds),
            payload,
            transfer: Transfer::Text,
        };
        assert(res@ =~= api_request(self@, *creds, method, path@, payload@));
        res
    }

    fn get_json(&self, creds: &Credentials, path: &str, query: Vec<(String, String)>) -> (res:
        Request)
        ensures
            res@ == get_request(self@, *creds, path@, pairs(query@)),
    {
        let mut request = self.api_call(Method::Get, creds, path, Payload::Nothing);
        request.query = query;
        request
    }

    fn send_json(&self, method: Method, creds: &Credentials, path: &str, document: Json) -> (res:
        Request)
        ensures
            res@ == json_request(self@, *creds, method, path@, document@),
    {
        self.api_call(method, creds, path, Payload::Document(document))
    }

    /// The account of the credential holder.
    pub fn myself(&self, creds: &Credentials) -> (res: Request)
        ensures
            res@ == get_request(self@, *creds, "/myself"@, Seq::empty()),
    {
        let none: Vec<(String, String)> = Vec::new();
        assert(pairs(none@) =~= Seq::empty());
        self.get_json(creds, "/myself", none)
    }

    /// Facts about the site.
    pub fn server_info(&self, creds: &Credentials) -> (res: Request)
        ensures
            res@ == get_request(self@, *creds, "/serverInfo"@, Seq::empty()),
    {
        let none: Vec<(String, String)> = Vec::new();
        assert(pairs(none@) =~= Seq::empty());
        self.get_json(creds, "/serverInfo", none)
    }

    /// An issue, with a projection of its fields where one is given.
    pub fn get_issue(&self, creds: &Credentials, key_or_id: &str, fields: Option<&str>) -> (res:
        Request)
        ensures
            res@ == issue_request(self@, *creds, key_or_id@, optional_str(fields)),
    {
        let path = concat3("/issue/", urlencoding_path(key_or_id).as_str(), "");
        let mut query: Vec<(String, String)> = Vec::new();
        proof {
            reveal_strlit("");
            assert(""@ =~= Seq::empty());
            assert(pairs(query@) =~= Seq::empty());
        }
        if let Some(f) = fields {
            query.push(owned_pair("fields", f));
            assert(pairs(query@) =~= seq![("fields"@, f@)]);
        }
        self.get_json(creds, path.as_str(), query)
    }

    /// The changelog of an issue.
    pub fn issue_changelog(
        &self,
        creds: &Credentials,
        key_or_id: &str,
        start_at: u32,
        max_results: u32,
    ) -> (res: Request)
        ensures
            res@ == changelog_request(
                self@,
                *creds,
                key_or_id@,
                start_at as int,
                max_results as int,
            ),
    {
        let path = concat3("/issue/", urlencoding_path(key_or_id).as_str(), "/changelog");
        let query: Vec<(String, String)> = vec![
            ("startAt".to_owned(), decimal(start_at as u64)),
            ("maxResults".to_owned(), decimal(max_results as u64)),
        ];
        assert(pairs(query@) =~= seq![
            ("startAt"@, numeral(start_at as nat)),
            ("maxResults"@, numeral(max_results as nat)),
        ]);
        self.get_json(creds, path.as_str(), query)
    }

    /// The comments of an issue.
    pub fn issue_comments(
        &self,
        creds: &Credentials,
        key_or_id: &str,
        start_at: u32,
        max_results: u32,
    ) -> (res: Request)
        ensures
            res@ == comments_request(
                self@,
                *creds,
                key_or_id@,
                start_at as int,
                max_results as int,
            ),
    {
        let path = concat3("/issue/", urlencoding_path(key_or_id).as_str(), "/comment");
        let query: Vec<(String, String)> = vec![
            ("startAt".to_owned(), decimal(start_at as u64)),
            ("maxResults".to_owned(), decimal(max_results as u64)),
            ("orderBy".to_owned(), "created".to_owned()),
        ];
        assert(pairs(query@) =~= seq![
            ("startAt"@, numeral(start_at as nat)),
            ("maxResults"@, numeral(max_results as nat)),
            ("orderBy"@, "created"@),
        ]);
        self.get_json(creds, path.as_str(), query)
    }

    /// Adds a comment of plain text, of restricted visibility where one is
    /// given.
    pub fn add_comment(
        &self,
        creds: &Credentials,
        key_or_id: &str,
        body_text: &str,
        visibility: Option<Json>,
    ) -> (res: Request)
        ensures
            res@ == comment_request(
                self@,
                *creds,
                key_or_id@,
                body_text@,
                match visibility {
                    Some(v) => Some(v@),
                    None => None,
                },
            ),
    {
        let path = concat3("/issue/", urlencoding_path(key_or_id).as_str(), "/comment");
        let mut document = Members::new().with("body", plain_to_adf(body_text));
        if let Some(v) = visibility {
            document.insert("visibility", v);
        }
        self.send_json(Method::Post, creds, path.as_str(), Json::Object(document))
    }

    /// The document of a search by offset.
    fn offset_document(query: &SearchQuery) -> (res: Json)
        ensures
            res@ == offset_search(query@),
    {
        let start: u64 = match query.start_at {
            Some(n) => n as u64,
            None => 0,
        };
        Json::Object(
            Members::new().with("jql", Json::text(query.jql.as_str())).with(
                "maxResults",
                Json::Unsigned(query.max_results as u64),
            ).with("fields", Json::texts(&query.fields)).with("startAt", Json::Unsigned(start)),
        )
    }

    /// The first request of a JQL search. On v3 it pages by token, on v2 by
    /// offset, where a token has no meaning and is not sent.
    pub fn search(&self, creds: &Credentials, query: &SearchQuery) -> (res: Request)
        ensures
            res@ == search_request(self@, *creds, query@),
    {
        match self.api_version {
            ApiVersion::V2 => self.offset_search(creds, query),
            ApiVersion::V3 => {
                let mut document = Members::new().with(
                    "jql",
                    Json::text(query.jql.as_str()),
                ).with("maxResults", Json::Unsigned(query.max_results as u64)).with(
                    "fields",
                    Json::texts(&query.fields),
                );
                if let Some(token) = &query.next_page_token {
                    document.insert("nextPageToken", Json::text(token.as_str()));
                }
                self.send_json(Method::Post, creds, "/search/jql", Json::Object(document))
            },
        }
    }

    /// A JQL search that pages by offset.
    pub fn offset_search(&self, creds: &Credentials, query: &SearchQuery) -> (res: Request)
        ensures
            res@ == offset_search_request(self@, *creds, query@),
    {
        self.send_json(Method::Post, creds, "/search", JiraClient::offset_document(query))
    }

    /// The caller's favourite saved filters.
    pub fn favourite_filters(&self, creds: &Credentials) -> (res: Request)
        ensures
            res@ == get_request(self@, *creds, "/filter/favourite"@, Seq::empty()),
    {
        let none: Vec<(String, String)> = Vec::new();
        assert(pairs(none@) =~= Seq::empty());
        self.get_json(creds, "/filter/favourite", none)
    }

    /// One saved filter.
    pub fn get_filter(&self, creds: &Credentials, filter_id: &str) -> (res: Request)
        ensures
            res@ == filter_request(self@, *creds, filter_id@),
    {
        let none: Vec<(String, String)> = Vec::new();
        assert(pairs(none@) =~= Seq::empty());
        let path = concat("/filter/", urlencoding_path(filter_id).as_str());
        self.get_json(creds, path.as_str(), none)
    }

    /// The attachment metadata of an issue.
    pub fn list_attachments(&self, creds: &Credentials, key_or_id: &str) -> (res: Request)
        ensures
            res@ == issue_request(self@, *creds, key_or_id@, Some("attachment"@)),
    {
        self.get_issue(creds, key_or_id, Some("attachment"))
    }

    /// The transitions that an issue can take.
    pub fn get_transitions(&self, creds: &Credentials, key_or_id: &str) -> (res: Request)
        ensures
            res@ == transitions_request(self@, *creds, key_or_id@),
    {
        let none: Vec<(String, String)> = Vec::new();
        assert(pairs(none@) =~= Seq::empty());
        let path = concat3("/issue/", urlencoding_path(key_or_id).as_str(), "/transitions");
        self.get_json(creds, path.as_str(), none)
    }

    /// Takes a transition, with fields and a comment where they are given.
    pub fn transition_issue(
        &self,
        creds: &Credentials,
        key_or_id: &str,
        transition_id: &str,
        fields: Option<Json>,
        comment: Option<&str>,
    ) -> (res: Request)
        ensures
            res@ == transition_request(
                self@,
                *creds,
                key_or_id@,
                transition_id@,
                match fields {
                    Some(f) => Some(f@),
                    None => None,
                },
                optional_str(comment),
            ),
    {
        let path = concat3("/issue/", urlencoding_path(key_or_id).as_str(), "/transitions");
        let mut document = Members::new().with(
            "transition",
            Json::Object(Members::new().with("id", Json::text(transition_id))),
        );
        if let Some(f) = fields {
            document.insert("fields", f);
        }
        if let Some(c) = comment {
            let add = Json::Object(
                Members::new().with(
                    "add",
                    Json::Object(Members::new().with("body", plain_to_adf(c))),
                ),
            );
            document.insert(
                "update",
                Json::Object(Members::new().with("comment", array_of(add))),
            );
        }
        self.send_json(Method::Post, creds, path.as_str(), Json::Object(document))
    }

    /// Changes fields of an issue.
    pub fn update_issue(&self, creds: &Credentials, key_or_id: &str, fields: Json) -> (res: Request)
        ensures
            res@ == update_request(self@, *creds, key_or_id@, fields@),
    {
        let path = concat3("/issue/", urlencoding_path(key_or_id).as_str(), "");
        proof {
            reveal_strlit("");
            assert(""@ =~= Seq::empty());
        }
        self.send_json(
            Method::Put,
            creds,
            path.as_str(),
            Json::Object(Members::new().with("fields", fields)),
        )
    }

    /// Files an issue.
    pub fn create_issue(&self, creds: &Credentials, fields: Json) -> (res: Request)
        ensures
            res@ == create_request(self@, *creds, fields@),
    {
        self.send_json(
            Method::Post,
            creds,
            "/issue",
            Json::Object(Members::new().with("fields", fields)),
        )
    }

    /// Links two issues.
    pub fn create_issue_link(
        &self,
        creds: &Credentials,
        link_type: &str,
        inward_key: &str,
        outward_key: &str,
    ) -> (res: Request)
        ensures
            res@ == link_request(self@, *creds, link_type@, inward_key@, outward_key@),
    {
        let document = Members::new().with(
            "type",
            Json::Object(Members::new().with("name", Json::text(link_type))),
        ).with(
            "inwardIssue",
            Json::Object(Members::new().with("key", Json::text(inward_key))),
        ).with("outwardIssue", Json::Object(Members::new().with("key", Json::text(outward_key))));
        self.send_json(Method::Post, creds, "/issueLink", Json::Object(document))
    }

    /// Adds a watcher by account id, which is sent as a JSON string.
    pub fn add_watcher(&self, creds: &Credentials, key_or_id: &str, account_id: &str) -> (res:
        Request)
        ensures
            res@ == watcher_request(self@, *creds, key_or_id@, account_id@),
    {
        let path = concat3("/issue/", urlencoding_path(key_or_id).as_str(), "/watchers");
        self.send_json(Method::Post, creds, path.as_str(), Json::text(account_id))
    }

    /// A download from a URL of the site.
    pub(crate) fn download(&self, creds: &Credentials, url: ParsedUrl, limit: Option<u64>) -> (res:
        Request)
        ensures
            res@ == download_request(self@, *creds, url@, limit),
    {
        let none: Vec<(String, String)> = Vec::new();
        let no_headers: Vec<(String, String)> = Vec::new();
        let res = Request {
            method: Method::Get,
            url: url.text,
            query: none,
            headers: no_headers,
            authorization: self.apply_auth(creds),
            payload: Payload::Nothing,
            transfer: Transfer::Bytes { limit },
        };
        assert(res@ =~= download_request(self@, *creds, url@, limit));
        res
    }

    /// Uploads an attachment.
    pub fn add_attachment(
        &self,
        creds: &Credentials,
        key_or_id: &str,
        filename: &str,
        data: Vec<u8>,
    ) -> (res: Request)
        ensures
            res@ == upload_request(self@, *creds, key_or_id@, filename@, data@),
    {
        let path = concat3("/issue/", urlencoding_path(key_or_id).as_str(), "/attachments");
        let mut request = self.api_call(
            Method::Post,
            creds,
            path.as_str(),
            Payload::File { filename: filename.to_owned(), data },
        );
        let headers: Vec<(String, String)> = vec![
            owned_pair("Accept", "application/json"),
            owned_pair("X-Atlassian-Token", "no-check"),
        ];
        request.headers = headers;
        assert(request@ =~= upload_request(self@, *creds, key_or_id@, filename@, data@));
        request
    }
}

/// The document of a transition.
pub open spec fn transition_document(
    id: Seq<char>,
    fields: Option<JsonView>,
    comment: Option<Seq<char>>,
) -> JsonView {
    let base = map!["transition"@ => JsonView::Object(map!["id"@ => JsonView::Text(id)])];
    let with_fields = match fields {
        Some(f) => base.insert("fields"@, f),
        None => base,
    };
    JsonView::Object(
        match comment {
            Some(c) => with_fields.insert(
                "update"@,
                JsonView::Object(
                    map![
                        "comment"@ => JsonView::Array(
                            seq![
                                JsonView::Object(
                                    map![
                                        "add"@ => JsonView::Object(map!["body"@ => adf(c)]),
                                    ],
                                ),
                            ],
                        ),
                    ],
                ),
            ),
            None => with_fields,
        },
    )
}

/// The document of a link.
pub open spec fn link_document(
    link_type: Seq<char>,
    inward: Seq<char>,
    outward: Seq<char>,
) -> JsonView {
    JsonView::Object(
        map![
            "type"@ => JsonView::Object(map!["name"@ => JsonView::Text(link_type)]),
            "inwardIssue"@ => JsonView::Object(map!["key"@ => JsonView::Text(inward)]),
            "outwardIssue"@ => JsonView::Object(map!["key"@ => JsonView::Text(outward)]),
        ],
    )
}

/// The request that adds a watcher: the body is the account id, as a JSON
/// string.
pub open spec fn watcher_request(
    client: ClientView,
    creds: Credentials,
    key: Seq<char>,
    account_id: Seq<char>,
) -> RequestView {
    json_request(
        client,
        creds,
        Method::Post,
        issue_path(key, "/watchers"@),
        JsonView::Text(account_id),
    )
}

/// The request that uploads an attachment.
pub open spec fn upload_request(
    client: ClientView,
    creds: Credentials,
    key: Seq<char>,
    filename: Seq<char>,
    data: Seq<u8>,
) -> RequestView {
    RequestView {
        headers: seq![accept_json(), ("X-Atlassian-Token"@, "no-check"@)],
        ..api_request(
            client,
            creds,
            Method::Post,
            issue_path(key, "/attachments"@),
            PayloadView::File { filename, data },
        )
    }
}

} // verus!
