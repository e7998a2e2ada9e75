//! What the replies of the Jira site mean.

use vstd::prelude::*;
use vstd::string::*;

use crate::client::{
    authorization_of, ApiVersion, ClientView, Credentials, JiraClient, Method, PayloadView, Request,
    RequestView, Transfer,
};
use crate::json::{items_view, json_parse, json_text, member_text, Json, JsonView};
use crate::meta::optional_text;
use crate::text::{
    begins_with, concat, concat3, decimal, numeral, same_text, starts_with, trim, trimmed,
};

verus! {

/// What came back for a request.
pub enum Reply {
    /// A response, whatever its status.
    Answer { status: u16, body: String },
    /// The bytes of a download.
    Data(Vec<u8>),
    /// A download that was broken off, or refused by the site.
    Aborted(ClientError),
    /// No response; the text tells why, without the address.
    Failed(String),
}

/// What a [`Reply`] means.
#[verifier::ext_equal]
pub enum ReplyView {
    Answer { status: int, body: Seq<char> },
    Data(Seq<u8>),
    Aborted(ErrorView),
    Failed(Seq<char>),
}

impl View for Reply {
    type V = ReplyView;

    open spec fn view(&self) -> ReplyView {
        match self {
            Reply::Answer { status, body } => ReplyView::Answer {
                status: *status as int,
                body: body@,
            },
            Reply::Data(bytes) => ReplyView::Data(bytes@),
            Reply::Aborted(e) => ReplyView::Aborted(e@),
            Reply::Failed(text) => ReplyView::Failed(text@),
        }
    }
}

/// Why a call came to nothing. None of these holds a token or an address.
#[derive(Debug)]
pub enum ClientError {
    /// No response.
    Transport(String),
    /// A status that is no success, with what the site says of it.
    Status { status: u16, message: String },
    /// A success whose body is not JSON.
    NotJson { status: u16 },
    NoAccountId,
    NotAFilterList,
    /// A download from anywhere but the site.
    DownloadRefused,
    DownloadStatus { status: u16 },
    /// A download whose declared length is over the limit.
    TooLong { declared: u64, limit: u64 },
    /// A download that went over the limit.
    OverLimit { limit: u64 },
    /// A reply of another form than the request asked for.
    Unexpected,
}

/// What a [`ClientError`] means.
#[verifier::ext_equal]
pub enum ErrorView {
    Transport(Seq<char>),
    Status { status: int, message: Seq<char> },
    NotJson { status: int },
    NoAccountId,
    NotAFilterList,
    DownloadRefused,
    DownloadStatus { status: int },
    TooLong { declared: int, limit: int },
    OverLimit { limit: int },
    Unexpected,
}

impl View for ClientError {
    type V = ErrorView;

    open spec fn view(&self) -> ErrorView {
        match self {
            ClientError::Transport(text) => ErrorView::Transport(text@),
            ClientError::Status { status, message } => ErrorView::Status {
                status: *status as int,
                message: message@,
            },
            ClientError::NotJson { status } => ErrorView::NotJson { status: *status as int },
            ClientError::NoAccountId => ErrorView::NoAccountId,
            ClientError::NotAFilterList => ErrorView::NotAFilterList,
            ClientError::DownloadRefused => ErrorView::DownloadRefused,
            ClientError::DownloadStatus { status } => ErrorView::DownloadStatus {
                status: *status as int,
            },
            ClientError::TooLong { declared, limit } => ErrorView::TooLong {
                declared: *declared as int,
                limit: *limit as int,
            },
            ClientError::OverLimit { limit } => ErrorView::OverLimit { limit: *limit as int },
            ClientError::Unexpected => ErrorView::Unexpected,
        }
    }
}

impl ErrorView {
    /// The text that tells of the error.
    pub open spec fn text(self) -> Seq<char> {
        match self {
            ErrorView::Transport(text) => text,
            ErrorView::Status { status, message } => "jira error (HTTP "@ + numeral(status as nat)
                + "): "@ + message,
            ErrorView::NotJson { status } => "jira error (HTTP "@ + numeral(status as nat)
                + "): response body is not valid JSON"@,
            ErrorView::NoAccountId => "jira /myself response carries no usable accountId"@,
            ErrorView::NotAFilterList => {
                "jira /filter/favourite response is not a filter list"@
            },
            ErrorView::DownloadRefused => "jira attachment download error"@,
            ErrorView::DownloadStatus { status } => "jira attachment download error (HTTP "@
                + numeral(status as nat) + ")"@,
            ErrorView::TooLong { declared, limit } => {
                "jira attachment exceeds the size cap ("@ + numeral(declared as nat) + " > "@
                    + numeral(limit as nat) + " bytes)"@
            },
            ErrorView::OverLimit { limit } => "jira attachment exceeds the size cap (> "@ + numeral(
                limit as nat,
            ) + " bytes)"@,
            ErrorView::Unexpected => "jira response has an unexpected form"@,
        }
    }
}

impl ClientError {
    /// The text that tells of the error.
    pub fn message(&self) -> (res: String)
        ensures
            res@ == self@.text(),
    {
        match self {
            ClientError::Transport(text) => text.clone(),
            ClientError::Status { status, message } => {
                let head = concat3("jira error (HTTP ", decimal(*status as u64).as_str(), "): ");
                concat(head.as_str(), message.as_str())
            },
            ClientError::NotJson { status } => concat3(
                "jira error (HTTP ",
                decimal(*status as u64).as_str(),
                "): response body is not valid JSON",
            ),
            ClientError::NoAccountId => {
                "jira /myself response carries no usable accountId".to_owned()
            },
            ClientError::NotAFilterList => {
                "jira /filter/favourite response is not a filter list".to_owned()
            },
            ClientError::DownloadRefused => "jira attachment download error".to_owned(),
            ClientError::DownloadStatus { status } => concat3(
                "jira attachment download error (HTTP ",
                decimal(*status as u64).as_str(),
                ")",
            ),
            ClientError::TooLong { declared, limit } => {
                let head = concat3(
                    "jira attachment exceeds the size cap (",
                    decimal(*declared).as_str(),
                    " > ",
                );
                concat3(head.as_str(), decimal(*limit).as_str(), " bytes)")
            },
            ClientError::OverLimit { limit } => concat3(
                "jira attachment exceeds the size cap (> ",
                decimal(*limit).as_str(),
                " bytes)",
            ),
            ClientError::Unexpected => "jira response has an unexpected form".to_owned(),
        }
    }
}

// --- documents --------------------------------------------------------------

/// The statuses that are a success.
pub open spec fn success(status: int) -> bool {
    200 <= status <= 299
}

/// What the site says of an error: the first of its error messages, or its
/// message, or the text of its errors. `errors` is the latter, where the body
/// has any.
pub open spec fn error_message(parsed: Option<JsonView>, errors: Option<Seq<char>>) -> Seq<char> {
    let listed = match parsed {
        Some(v) => match v.items_at("errorMessages"@) {
            Some(items) => if items.len() > 0 {
                items[0].text()
            } else {
                None
            },
            None => None,
        },
        None => None,
    };
    let plain = match parsed {
        Some(v) => v.text_at("message"@),
        None => None,
    };
    match (listed, plain, errors) {
        (Some(s), _, _) => s,
        (None, Some(s), _) => s,
        (None, None, Some(s)) => s,
        (None, None, None) => "unknown error"@,
    }
}

/// The document of a response, given what its body was parsed to and the text
/// of the errors in it.
pub open spec fn settled(status: int, parsed: Option<JsonView>, errors: Option<Seq<char>>) -> Result<
    JsonView,
    ErrorView,
> {
    if status == 204 {
        Ok(JsonView::Null)
    } else if !success(status) {
        Err(ErrorView::Status { status, message: error_message(parsed, errors) })
    } else {
        match parsed {
            Some(v) => Ok(v),
            None => Err(ErrorView::NotJson { status }),
        }
    }
}

/// The text of the errors in a parsed body.
pub open spec fn errors_text(parsed: Option<JsonView>) -> Option<Seq<char>> {
    match parsed {
        Some(v) => match v.get("errors"@) {
            Some(e) => Some(json_text(e)),
            None => None,
        },
        None => None,
    }
}

/// The document of a response.
pub open spec fn parsed_response(status: int, body: Seq<char>) -> Result<JsonView, ErrorView> {
    settled(status, json_parse(body), errors_text(json_parse(body)))
}

/// What the outcome of a call means.
pub open spec fn document_view(outcome: Result<Json, ClientError>) -> Result<JsonView, ErrorView> {
    match outcome {
        Ok(v) => Ok(v@),
        Err(e) => Err(e@),
    }
}

/// What the outcome of a call without a result means.
pub open spec fn done_view(outcome: Result<(), ClientError>) -> Result<(), ErrorView> {
    match outcome {
        Ok(()) => Ok(()),
        Err(e) => Err(e@),
    }
}

fn is_success(status: u16) -> (res: bool)
    ensures
        res == success(status as int),
{
    200 <= status && status <= 299
}

/// What the site says of an error.
fn message_of(parsed: &Option<Json>, errors: Option<String>) -> (res: String)
    ensures
        res@ == error_message(
            match *parsed {
                Some(v) => Some(v@),
                None => None,
            },
            optional_text(errors),
        ),
{
    if let Some(v) = parsed {
        if let Some(items) = v.items_at("errorMessages") {
            if items.len() > 0 {
                assert(items_view(items@)[0] == items@[0]@);
                if let Some(s) = items[0].as_str() {
                    return s.to_owned();
                }
            }
        }
        if let Some(s) = v.text_at("message") {
            return s.to_owned();
        }
    }
    match errors {
        Some(s) => s,
        None => "unknown error".to_owned(),
    }
}

/// The error of a response whose status is no success. `parsed` is what its
/// body holds, where that is JSON, and `errors` the text of the errors in it.
pub fn check_error(status: u16, parsed: &Option<Json>, errors: Option<String>) -> (res: Result<
    (),
    ClientError,
>)
    ensures
        match res {
            Ok(()) => success(status as int),
            Err(e) => !success(status as int) && e@ == (ErrorView::Status {
                status: status as int,
                message: error_message(
                    match *parsed {
                        Some(v) => Some(v@),
                        None => None,
                    },
                    optional_text(errors),
                ),
            }),
        },
{
    if is_success(status) {
        Ok(())
    } else {
        Err(ClientError::Status { status, message: message_of(parsed, errors) })
    }
}

/// The document of a response, given what its body was parsed to and the text
/// of the errors in it.
pub fn settle(status: u16, parsed: Option<Json>, errors: Option<String>) -> (res: Result<
    Json,
    ClientError,
>)
    ensures
        document_view(res) == settled(
            status as int,
            match parsed {
                Some(v) => Some(v@),
                None => None,
            },
            optional_text(errors),
        ),
{
    if status == 204 {
        return Ok(Json::Null);
    }
    match check_error(status, &parsed, errors) {
        Err(e) => Err(e),
        Ok(()) => match parsed {
            Some(v) => Ok(v),
            None => Err(ClientError::NotJson { status }),
        },
    }
}

/// The document of a response.
pub fn parse_response(status: u16, body: &str) -> (res: Result<Json, ClientError>)
    ensures
        document_view(res) == parsed_response(status as int, body@),
{
    settle(status, Json::parse(body), member_text(body, "errors"))
}

/// The document of a reply.
pub open spec fn document_of(reply: ReplyView) -> Result<JsonView, ErrorView> {
    match reply {
        ReplyView::Answer { status, body } => parsed_response(status, body),
        ReplyView::Failed(text) => Err(ErrorView::Transport(text)),
        ReplyView::Aborted(e) => Err(e),
        ReplyView::Data(_) => Err(ErrorView::Unexpected),
    }
}

/// A change that has no result to show went through: the site answered with a
/// success and nothing, or with a document.
pub open spec fn change_of(reply: ReplyView) -> Result<(), ErrorView> {
    match reply {
        ReplyView::Answer { status, body } => if success(status) && (status == 204 || trimmed(
            body,
        ).len() == 0) {
            Ok(())
        } else {
            match parsed_response(status, body) {
                Ok(_) => Ok(()),
                Err(e) => Err(e),
            }
        },
        ReplyView::Failed(text) => Err(ErrorView::Transport(text)),
        ReplyView::Aborted(e) => Err(e),
        ReplyView::Data(_) => Err(ErrorView::Unexpected),
    }
}

/// A watcher was added: the site answered with a success, whatever the body.
pub open spec fn watcher_of(reply: ReplyView) -> Result<(), ErrorView> {
    match reply {
        ReplyView::Answer { status, body } => if success(status) {
            Ok(())
        } else {
            match parsed_response(status, body) {
                Ok(_) => Ok(()),
                Err(e) => Err(e),
            }
        },
        ReplyView::Failed(text) => Err(ErrorView::Transport(text)),
        ReplyView::Aborted(e) => Err(e),
        ReplyView::Data(_) => Err(ErrorView::Unexpected),
    }
}

/// The bytes of a download.
pub open spec fn data_of(reply: ReplyView) -> Result<Seq<u8>, ErrorView> {
    match reply {
        ReplyView::Data(bytes) => Ok(bytes),
        ReplyView::Failed(text) => Err(ErrorView::Transport(text)),
        ReplyView::Aborted(e) => Err(e),
        ReplyView::Answer { .. } => Err(ErrorView::Unexpected),
    }
}

/// What the outcome of a download means.
pub open spec fn data_view(outcome: Result<Vec<u8>, ClientError>) -> Result<Seq<u8>, ErrorView> {
    match outcome {
        Ok(bytes) => Ok(bytes@),
        Err(e) => Err(e@),
    }
}

/// The account id in the account of the credential holder.
pub open spec fn account_id_of(account: Result<JsonView, ErrorView>) -> Result<
    Seq<char>,
    ErrorView,
> {
    match account {
        Err(e) => Err(e),
        Ok(v) => match v.text_at("accountId"@) {
            Some(id) => if trimmed(id).len() > 0 {
                Ok(id)
            } else {
                Err(ErrorView::NoAccountId)
            },
            None => Err(ErrorView::NoAccountId),
        },
    }
}

/// The facts about the site, with its address put in.
pub open spec fn server_info_of(
    client: ClientView,
    info: Result<JsonView, ErrorView>,
) -> Result<JsonView, ErrorView> {
    match info {
        Ok(JsonView::Object(m)) => Ok(
            JsonView::Object(m.insert("url"@, JsonView::Text(client.base_url))),
        ),
        other => other,
    }
}

/// The favourite filters: a list, or a list under `values`.
pub open spec fn filters_of(filters: Result<JsonView, ErrorView>) -> Result<
    Seq<JsonView>,
    ErrorView,
> {
    match filters {
        Err(e) => Err(e),
        Ok(JsonView::Array(items)) => Ok(items),
        Ok(v) => match v.items_at("values"@) {
            Some(items) => Ok(items),
            None => Err(ErrorView::NotAFilterList),
        },
    }
}

/// The attachment metadata in an issue; none where it has no list of it.
pub open spec fn attachments_of(issue: Result<JsonView, ErrorView>) -> Result<
    Seq<JsonView>,
    ErrorView,
> {
    match issue {
        Err(e) => Err(e),
        Ok(v) => match v.get("fields"@) {
            Some(f) => match f.items_at("attachment"@) {
                Some(items) => Ok(items),
                None => Ok(Seq::empty()),
            },
            None => Ok(Seq::empty()),
        },
    }
}

/// What the outcome of a call for a list means.
pub open spec fn list_view(outcome: Result<Vec<Json>, ClientError>) -> Result<
    Seq<JsonView>,
    ErrorView,
> {
    match outcome {
        Ok(items) => Ok(items_view(items@)),
        Err(e) => Err(e@),
    }
}

/// A copy of a list of documents.
pub fn copy_items(items: &Vec<Json>) -> (res: Vec<Json>)
    ensures
        items_view(res@) == items_view(items@),
{
    let mut copy: Vec<Json> = Vec::new();
    let mut i: usize = 0;
    while i < items.len()
        invariant
            i <= items.len(),
            copy.len() == i,
            forall|j: int| 0 <= j < i ==> (#[trigger] copy@[j])@ == items@[j]@,
        decreases items.len() - i,
    {
        copy.push(items[i].clone());
        i += 1;
    }
    assert(items_view(copy@) =~= items_view(items@));
    copy
}

impl JiraClient {
    /// The document of a reply.
    pub fn document(reply: Reply) -> (res: Result<Json, ClientError>)
        ensures
            document_view(res) == document_of(reply@),
    {
        match reply {
            Reply::Answer { status, body } => parse_response(status, body.as_str()),
            Reply::Failed(text) => Err(ClientError::Transport(text)),
            Reply::Aborted(e) => Err(e),
            Reply::Data(_) => Err(ClientError::Unexpected),
        }
    }

    /// Whether a change that has no result to show went through.
    pub fn send_json_empty_ok(reply: Reply) -> (res: Result<(), ClientError>)
        ensures
            done_view(res) == change_of(reply@),
    {
        match reply {
            Reply::Answer { status, body } => {
                if is_success(status) && (status == 204 || trim(body.as_str()).unicode_len() == 0) {
                    return Ok(());
                }
                match parse_response(status, body.as_str()) {
                    Ok(_) => Ok(()),
                    Err(e) => Err(e),
                }
            },
            Reply::Failed(text) => Err(ClientError::Transport(text)),
            Reply::Aborted(e) => Err(e),
            Reply::Data(_) => Err(ClientError::Unexpected),
        }
    }

    /// Whether a watcher was added.
    pub fn watcher_added(reply: Reply) -> (res: Result<(), ClientError>)
        ensures
            done_view(res) == watcher_of(reply@),
    {
        match reply {
            Reply::Answer { status, body } => {
                if is_success(status) {
                    return Ok(());
                }
                match parse_response(status, body.as_str()) {
                    Ok(_) => Ok(()),
                    Err(e) => Err(e),
                }
            },
            Reply::Failed(text) => Err(ClientError::Transport(text)),
            Reply::Aborted(e) => Err(e),
            Reply::Data(_) => Err(ClientError::Unexpected),
        }
    }

    /// The bytes of a download.
    pub fn data(reply: Reply) -> (res: Result<Vec<u8>, ClientError>)
        ensures
            data_view(res) == data_of(reply@),
    {
        match reply {
            Reply::Data(bytes) => Ok(bytes),
            Reply::Failed(text) => Err(ClientError::Transport(text)),
            Reply::Aborted(e) => Err(e),
            Reply::Answer { .. } => Err(ClientError::Unexpected),
        }
    }

    /// The account id in the document of [`JiraClient::myself`].
    pub fn account_id(account: Result<Json, ClientError>) -> (res: Result<String, ClientError>)
        ensures
            match res {
                Ok(id) => account_id_of(document_view(account)) == Ok::<Seq<char>, ErrorView>(id@),
                Err(e) => account_id_of(document_view(account)) == Err::<Seq<char>, ErrorView>(e@),
            },
    {
        let account = match account {
            Ok(v) => v,
            Err(e) => return Err(e),
        };
        match account.text_at("accountId") {
            Some(id) => if trim(id).unicode_len() > 0 {
                Ok(id.to_owned())
            } else {
                Err(ClientError::NoAccountId)
            },
            None => Err(ClientError::NoAccountId),
        }
    }

    /// The facts about the site in the document of [`JiraClient::server_info`],
    /// with its address put in.
    pub fn server_info_from(&self, info: Result<Json, ClientError>) -> (res: Result<
        Json,
        ClientError,
    >)
        ensures
            document_view(res) == server_info_of(self@, document_view(info)),
    {
        match info {
            Ok(Json::Object(members)) => {
                let mut info = members;
                info.insert("url", Json::text(self.base_url()));
                Ok(Json::Object(info))
            },
            other => other,
        }
    }

    /// The filters in the document of [`JiraClient::favourite_filters`].
    pub fn favourite_filters_from(filters: Result<Json, ClientError>) -> (res: Result<
        Vec<Json>,
        ClientError,
    >)
        ensures
            list_view(res) == filters_of(document_view(filters)),
    {
        match filters {
            Err(e) => Err(e),
            Ok(Json::Array(items)) => Ok(items),
            Ok(v) => match v.items_at("values") {
                Some(items) => Ok(copy_items(items)),
                None => Err(ClientError::NotAFilterList),
            },
        }
    }

    /// The metadata in the document of [`JiraClient::list_attachments`].
    pub fn list_attachments_from(issue: Result<Json, ClientError>) -> (res: Result<
        Vec<Json>,
        ClientError,
    >)
        ensures
            list_view(res) == attachments_of(document_view(issue)),
    {
        let issue = match issue {
            Ok(v) => v,
            Err(e) => return Err(e),
        };
        let none: Vec<Json> = Vec::new();
        assert(items_view(none@) =~= Seq::empty());
        match issue.get("fields") {
            Some(fields) => match fields.items_at("attachment") {
                Some(items) => Ok(copy_items(items)),
                None => Ok(none),
            },
            None => Ok(none),
        }
    }
}

// --- searching --------------------------------------------------------------

/// The reply of a search says that the site does not have its endpoint: it has
/// the status 404.
pub open spec fn endpoint_missing(outcome: Result<JsonView, ErrorView>) -> bool {
    outcome matches Err(ErrorView::Status { status, .. }) && status == 404
}

impl JiraClient {
    /// Whether a search has to be asked again, by offset: where a v3 site does
    /// not have the endpoint that pages by token. `retried` tells that this was
    /// done.
    pub fn search_again(&self, retried: bool, outcome: &Result<Json, ClientError>) -> (res: bool)
        ensures
            res == (self@.api_version == ApiVersion::V3 && !retried && endpoint_missing(
                document_view(*outcome),
            )),
    {
        match outcome {
            Err(ClientError::Status { status, .. }) => self.api_version() == ApiVersion::V3
                && !retried && *status == 404,
            _ => false,
        }
    }
}

// --- downloads --------------------------------------------------------------

/// What the library reads of a URL.
#[verifier::ext_equal]
pub struct UrlView {
    /// The normalised URL.
    pub text: Seq<char>,
    pub host: Option<Seq<char>>,
    /// Scheme, host and port in one text; `None` for a scheme whose URLs have
    /// no origin in common.
    pub origin: Option<Seq<char>>,
}

/// A URL.
#[derive(Debug)]
pub struct ParsedUrl {
    pub text: String,
    pub host: Option<String>,
    pub origin: Option<String>,
}

impl View for ParsedUrl {
    type V = UrlView;

    open spec fn view(&self) -> UrlView {
        UrlView {
            text: self.text@,
            host: optional_text(self.host),
            origin: optional_text(self.origin),
        }
    }
}

/// The normalised text of a URL, its scheme, its host and its path.
#[verifier::ext_equal]
pub struct UrlPartsView {
    pub text: Seq<char>,
    pub scheme: Seq<char>,
    pub host: Option<Seq<char>>,
    pub path: Seq<char>,
}

/// The normalised text of a URL, its scheme, its host and its path.
pub struct UrlParts {
    pub text: String,
    pub scheme: String,
    pub host: Option<String>,
    pub path: String,
}

impl View for UrlParts {
    type V = UrlPartsView;

    open spec fn view(&self) -> UrlPartsView {
        UrlPartsView {
            text: self.text@,
            scheme: self.scheme@,
            host: optional_text(self.host),
            path: self.path@,
        }
    }
}

/// What `reqwest::Url::parse` reads from a text; `None` where that is no
/// absolute URL.
pub uninterp spec fn url_parse(text: Seq<char>) -> Option<UrlPartsView>;

/// What `reqwest::Url::origin` gives of the URL in a text: its serialisation,
/// or `None` where it is opaque.
pub uninterp spec fn url_origin(text: Seq<char>) -> Option<Seq<char>>;

/// `reqwest::Url::parse`, and of the URL its text, its scheme, its host and its
/// path. The result is named by [`url_parse`].
#[verifier::external_body]
fn parse_url(text: &str) -> (res: Option<UrlParts>)
    ensures
        match res {
            Some(url) => url_parse(text@) == Some(url@),
            None => url_parse(text@) is None,
        },
{
    let url = reqwest::Url::parse(text).ok()?;
    Some(UrlParts {
        text: url.as_str().to_owned(),
        scheme: url.scheme().to_owned(),
        host: url.host_str().map(|host| host.to_owned()),
        path: url.path().to_owned(),
    })
}

/// `reqwest::Url::origin` of the URL in a text, named by [`url_origin`]. An
/// origin that is opaque, and so equal to no other, is `None`; two others are
/// equal exactly if their serialisations are. A `blob` URL is left out: there
/// the call would descend into itself, to whatever depth the text has.
#[verifier::external_body]
fn origin_of(text: &str) -> (res: Option<String>)
    requires
        url_parse(text@) is Some,
        url_parse(text@)->0.scheme != "blob"@,
    ensures
        optional_text(res) == url_origin(text@),
{
    let origin = reqwest::Url::parse(text).ok()?.origin();
    origin.is_tuple().then_some(origin.ascii_serialization())
}

/// The origin of the URL in a text. That of a `blob` URL is the origin of the
/// URL in its path, through `depth` of them at most.
pub open spec fn origin_within(text: Seq<char>, depth: nat) -> Option<Seq<char>>
    decreases depth,
{
    match url_parse(text) {
        Some(url) => if url.scheme != "blob"@ {
            url_origin(text)
        } else if depth == 0 {
            None
        } else {
            origin_within(url.path, (depth - 1) as nat)
        },
        None => None,
    }
}

/// What a text says as a URL; `None` where it is no absolute one. No more
/// `blob` URLs can stand in one another than a text has characters.
pub open spec fn url_read(text: Seq<char>) -> Option<UrlView> {
    match url_parse(text) {
        Some(url) => Some(
            UrlView {
                text: url.text,
                host: url.host,
                origin: origin_within(text, text.len()),
            },
        ),
        None => None,
    }
}

/// The origin of the URL in a text.
fn find_origin(text: &str) -> (res: Option<String>)
    ensures
        optional_text(res) == origin_within(text@, text@.len()),
{
    let mut inner = text.to_owned();
    let mut depth: usize = text.unicode_len();
    loop
        invariant
            origin_within(text@, text@.len()) == origin_within(inner@, depth as nat),
        decreases depth,
    {
        match parse_url(inner.as_str()) {
            Some(url) => {
                if !same_text(url.scheme.as_str(), "blob") {
                    return origin_of(inner.as_str());
                }
                if depth == 0 {
                    return None;
                }
                inner = url.path;
                depth -= 1;
            },
            None => return None,
        }
    }
}

/// Reads a URL.
fn read_url(text: &str) -> (res: Option<ParsedUrl>)
    ensures
        optional_url(res) == url_read(text@),
{
    match parse_url(text) {
        Some(url) => Some(
            ParsedUrl { text: url.text, host: url.host, origin: find_origin(text) },
        ),
        None => None,
    }
}

/// The address of a content URL: an absolute one as it is, another below the
/// address of the site.
pub open spec fn content_address(base: Seq<char>, content: Seq<char>) -> Seq<char> {
    if begins_with(content, "http://"@) || begins_with(content, "https://"@) {
        content
    } else if begins_with(content, "/"@) {
        base + content
    } else {
        base + "/"@ + content
    }
}

/// A URL of the same origin as the site.
pub open spec fn of_same_origin(base: Option<UrlView>, url: Option<UrlView>) -> Option<UrlView> {
    match (base, url) {
        (Some(b), Some(u)) => if b.origin is Some && b.origin == u.origin {
            Some(u)
        } else {
            None
        },
        _ => None,
    }
}

/// What an optional URL means.
pub open spec fn optional_url(url: Option<ParsedUrl>) -> Option<UrlView> {
    match url {
        Some(u) => Some(u@),
        None => None,
    }
}

/// The URL, if it is of the same origin as the site.
pub fn same_origin(base: &Option<ParsedUrl>, url: Option<ParsedUrl>) -> (res: Option<ParsedUrl>)
    ensures
        optional_url(res) == of_same_origin(optional_url(*base), optional_url(url)),
{
    match (base, url) {
        (Some(b), Some(u)) => {
            let equal = match (&b.origin, &u.origin) {
                (Some(x), Some(y)) => same_text(x.as_str(), y.as_str()),
                _ => false,
            };
            if equal {
                Some(u)
            } else {
                None
            }
        },
        _ => None,
    }
}

/// The request for a download.
pub open spec fn download_request(
    client: ClientView,
    creds: Credentials,
    url: UrlView,
    limit: Option<u64>,
) -> RequestView {
    RequestView {
        method: Method::Get,
        url: url.text,
        query: Seq::empty(),
        headers: Seq::empty(),
        authorization: authorization_of(client.auth_mode, creds),
        payload: PayloadView::Nothing,
        transfer: Transfer::Bytes { limit },
    }
}

impl JiraClient {
    /// Resolves a content URL and refuses any that is not of the origin of the
    /// site (scheme, host and port), so that credentials are sent to no other.
    /// The error tells nothing of the target.
    pub fn same_origin_content_url(&self, content_url: &str) -> (res: Result<
        ParsedUrl,
        ClientError,
    >)
        ensures
            match res {
                Ok(url) => Some(url@) == of_same_origin(
                    url_read(self@.base_url),
                    url_read(content_address(self@.base_url, content_url@)),
                ),
                Err(e) => e@ == ErrorView::DownloadRefused && of_same_origin(
                    url_read(self@.base_url),
                    url_read(content_address(self@.base_url, content_url@)),
                ) is None,
            },
    {
        let base = read_url(self.base_url());
        let address = if starts_with(content_url, "http://") || starts_with(
            content_url,
            "https://",
        ) {
            content_url.to_owned()
        } else if starts_with(content_url, "/") {
            concat(self.base_url(), content_url)
        } else {
            concat3(self.base_url(), "/", content_url)
        };
        match same_origin(&base, read_url(address.as_str())) {
            Some(url) => Ok(url),
            None => Err(ClientError::DownloadRefused),
        }
    }

    /// The request for the content of an attachment, no more than `max_bytes`
    /// of it where that is given; an error where it is not on the site.
    pub fn download_attachment_bytes(
        &self,
        creds: &Credentials,
        content_url: &str,
        max_bytes: Option<u64>,
    ) -> (res: Result<Request, ClientError>)
        ensures
            ({
                let url = of_same_origin(
                    url_read(self@.base_url),
                    url_read(content_address(self@.base_url, content_url@)),
                );
                match res {
                    Ok(request) => url is Some && request@ == download_request(
                        self@,
                        *creds,
                        url->0,
                        max_bytes,
                    ),
                    Err(e) => url is None && e@ == ErrorView::DownloadRefused,
                }
            }),
    {
        let url = match self.same_origin_content_url(content_url) {
            Ok(url) => url,
            Err(e) => return Err(e),
        };
        Ok(self.download(creds, url, max_bytes))
    }
}

/// A download in progress. It never holds more than its limit.
pub struct Download {
    limit: Option<u64>,
    bytes: Vec<u8>,
}

/// A number of bytes is within a limit.
pub open spec fn within(limit: Option<u64>, n: int) -> bool {
    match limit {
        Some(l) => n <= l,
        None => true,
    }
}

impl View for Download {
    type V = (Option<u64>, Seq<u8>);

    closed spec fn view(&self) -> (Option<u64>, Seq<u8>) {
        (self.limit, self.bytes@)
    }
}

impl Download {
    #[verifier::type_invariant]
    spec fn bounded(&self) -> bool {
        within(self.limit, self.bytes@.len() as int)
    }

    /// Begins a download, given the status of the response and the length that
    /// it declares, if any.
    pub fn begin(status: u16, declared: Option<u64>, limit: Option<u64>) -> (res: Result<
        Download,
        ClientError,
    >)
        ensures
            match res {
                Ok(download) => {
                    &&& success(status as int)
                    &&& declared is Some ==> within(limit, declared->0 as int)
                    &&& download@ == (limit, Seq::<u8>::empty())
                },
                Err(e) => {
                    ||| !success(status as int) && e@ == (ErrorView::DownloadStatus {
                        status: status as int,
                    })
                    ||| success(status as int) && declared is Some && !within(
                        limit,
                        declared->0 as int,
                    ) && e@ == (ErrorView::TooLong {
                        declared: declared->0 as int,
                        limit: limit->0 as int,
                    })
                },
            },
    {
        if !is_success(status) {
            return Err(ClientError::DownloadStatus { status });
        }
        if let (Some(l), Some(d)) = (limit, declared) {
            if d > l {
                return Err(ClientError::TooLong { declared: d, limit: l });
            }
        }
        let res = Download { limit, bytes: Vec::new() };
        assert(res.bytes@ =~= Seq::empty());
        Ok(res)
    }

    /// Takes the next chunk, unless the download would go over its limit.
    pub fn push(&mut self, chunk: &Vec<u8>) -> (res: Result<(), ClientError>)
        ensures
            match res {
                Ok(()) => {
                    &&& within(old(self)@.0, (old(self)@.1.len() + chunk@.len()) as int)
                    &&& final(self)@ == (old(self)@.0, old(self)@.1 + chunk@)
                },
                Err(e) => {
                    &&& !within(old(self)@.0, (old(self)@.1.len() + chunk@.len()) as int)
                    &&& e@ == (ErrorView::OverLimit { limit: old(self)@.0->0 as int })
                    &&& final(self)@ == old(self)@
                },
            },
    {
        proof {
            use_type_invariant(&*self);
        }
        if let Some(l) = self.limit {
            let held: u64 = self.bytes.len() as u64;
            if (chunk.len() as u64) > l - held {
                return Err(ClientError::OverLimit { limit: l });
            }
        }
        let mut bytes: Vec<u8> = Vec::new();
        std::mem::swap(&mut bytes, &mut self.bytes);
        let ghost start = bytes@;
        let mut i: usize = 0;
        while i < chunk.len()
            invariant
                i <= chunk.len(),
                bytes@ == start + chunk@.take(i as int),
            decreases chunk.len() - i,
        {
            bytes.push(chunk[i]);
            assert(bytes@ =~= start + chunk@.take(i + 1));
            i += 1;
        }
        assert(chunk@.take(chunk@.len() as int) =~= chunk@);
        self.bytes = bytes;
        Ok(())
    }

    /// The bytes of the download; never more than the limit.
    pub fn finish(self) -> (res: Vec<u8>)
        ensures
            res@ == self@.1,
            within(self@.0, res@.len() as int),
    {
        proof {
            use_type_invariant(&self);
        }
        self.bytes
    }
}

} // verus!
