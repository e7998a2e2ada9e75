//! What a call asks the site for: whatever the site answers, each request of a
//! run is one that the call is there for, and carries what the call gives.

use vstd::prelude::*;
use vstd::string::*;

use crate::client::{
    adf, escaped, offset_search_request, search_request, ApiVersion, AuthMode, AuthorizationView,
    Credentials, Method, PayloadView, QueryView, RequestView, Transfer, CLASSIFY_FIELDS,
};
use crate::decisions::holds;
use crate::encoding::base64_bytes;
use crate::flow::{
    attachment_with, begun, changelog_keys, cleaned, concluded, creation_fields, disclosed_keys,
    downloads, fetched, fresh, gate_begun, gate_decided, gate_entry, gate_noted, gate_passed,
    gates, has_id, identified, info_fetched, info_goes_on, issue_keys, linked_fetched, page_size,
    proceeds, query_of, resolved, resumed, searches, served_noted, EventView, InfoView,
    OutcomeView, PendingView, RunView, StageView, StepView, Trace,
};
use crate::guard::{assessment_of, fetch_list, MAX_ASSESS_KEYS};
use crate::json::{text_array, JsonView};
use crate::keyset::{sorted, texts};
use crate::meta::{optional_text, optional_texts};
use crate::policy::{asks_identity, PolicyView};
use crate::project::{projected, ungated_issue};
use crate::reply::{account_id_of, attachments_of, content_address, url_read, ErrorView};
use crate::scrub::{scrubbed, scrubbed_key};
use crate::search::scan_of;
use crate::server::KeepView;
use crate::text::{numeral, parts, trimmed};
use crate::tools::{
    AddAttachmentParams, AddCommentParams, AssignParams, CreateIssueParams,
    DownloadAttachmentParams, LinkParams, ToolCall, TransitionParams,
};

verus! {

// --- the forms of a request -------------------------------------------------

/// The address of a path of the site's REST API, in the version that the
/// operator chose.
pub open spec fn address(keep: KeepView, path: Seq<char>) -> Seq<char> {
    keep.client.base_url + "/rest/api/"@ + (match keep.client.api_version {
        ApiVersion::V2 => "2"@,
        ApiVersion::V3 => "3"@,
    }) + path
}

/// A request carries the credentials, in the way that the operator chose: the
/// email and the token, or the token alone as a bearer.
pub open spec fn signed(keep: KeepView, creds: Credentials, request: RequestView) -> bool {
    match keep.client.auth_mode {
        AuthMode::Basic => request.authorization == (AuthorizationView::Basic {
            email: creds.email@,
            token: creds.token@,
        }),
        AuthMode::Bearer => request.authorization == AuthorizationView::Header(
            "Bearer "@ + creds.token@,
        ),
    }
}

/// A request to a path of the site that wants a JSON document back.
pub open spec fn calls(
    keep: KeepView,
    creds: Credentials,
    request: RequestView,
    method: Method,
    path: Seq<char>,
) -> bool {
    &&& request.method == method
    &&& request.url == address(keep, path)
    &&& request.headers.contains(("Accept"@, "application/json"@))
    &&& request.transfer == Transfer::Text
    &&& signed(keep, creds, request)
}

/// A request that only asks.
pub open spec fn asks(
    keep: KeepView,
    creds: Credentials,
    request: RequestView,
    path: Seq<char>,
    query: Seq<(Seq<char>, Seq<char>)>,
) -> bool {
    &&& calls(keep, creds, request, Method::Get, path)
    &&& request.query == query
    &&& request.payload is Nothing
}

/// A request that brings a document.
pub open spec fn brings(
    keep: KeepView,
    creds: Credentials,
    request: RequestView,
    method: Method,
    path: Seq<char>,
) -> bool {
    &&& calls(keep, creds, request, method, path)
    &&& request.query.len() == 0
    &&& request.payload is Document
}

/// The path of an issue.
pub open spec fn to_issue(key: Seq<char>, rest: Seq<char>) -> Seq<char> {
    "/issue/"@ + escaped(key) + rest
}

/// A request asks for what an issue is classified by.
pub open spec fn asks_to_classify(
    keep: KeepView,
    creds: Credentials,
    request: RequestView,
    key: Seq<char>,
) -> bool {
    asks(
        keep,
        creds,
        request,
        to_issue(key, Seq::empty()),
        seq![
            (
                "fields"@,
                "summary,project,status,priority,issuetype,labels,components,security,created,reporter,assignee,issuelinks,parent,subtasks"@,
            ),
        ],
    )
}

/// The smaller of two numbers.
pub open spec fn least(a: int, b: int) -> int {
    if a < b {
        a
    } else {
        b
    }
}

/// The larger of two numbers.
pub open spec fn most(a: int, b: int) -> int {
    if a < b {
        b
    } else {
        a
    }
}

/// A document holds no member by that name.
pub open spec fn lacks(document: JsonView, name: Seq<char>) -> bool {
    document matches JsonView::Object(m) && !m.dom().contains(name)
}

/// A document has the member `outer`, and that is an object that holds `value`
/// under `inner`.
pub open spec fn holds2(
    document: JsonView,
    outer: Seq<char>,
    inner: Seq<char>,
    value: JsonView,
) -> bool {
    exists|part: JsonView| #[trigger] holds(document, outer, part) && holds(part, inner, value)
}

/// `part` is a node of the Atlassian Document Format that holds one other.
pub open spec fn wraps(part: JsonView, kind: Seq<char>, inner: JsonView) -> bool {
    &&& holds(part, "type"@, JsonView::Text(kind))
    &&& holds(part, "content"@, JsonView::Array(seq![inner]))
}

/// A document in the Atlassian Document Format that says `text` and no more.
pub open spec fn says(document: JsonView, text: Seq<char>) -> bool {
    &&& holds(document, "version"@, JsonView::Unsigned(1))
    &&& exists|paragraph: JsonView, leaf: JsonView|
        {
            &&& #[trigger] wraps(document, "doc"@, paragraph)
            &&& #[trigger] wraps(paragraph, "paragraph"@, leaf)
            &&& holds(leaf, "type"@, JsonView::Text("text"@))
            &&& holds(leaf, "text"@, JsonView::Text(text))
        }
}

pub(crate) proof fn lemma_says(text: Seq<char>)
    ensures
        says(adf(text), text),
{
    reveal_strlit("type");
    reveal_strlit("text");
    reveal_strlit("content");
    reveal_strlit("version");
    assert("type"@.len() == 4 && "type"@[1] == 'y');
    assert("text"@.len() == 4 && "text"@[1] == 'e');
    assert("content"@.len() == 7 && "content"@[0] == 'c');
    assert("version"@.len() == 7 && "version"@[0] == 'v');
    let leaf = JsonView::Object(
        map!["type"@ => JsonView::Text("text"@), "text"@ => JsonView::Text(text)],
    );
    let paragraph = JsonView::Object(
        map!["type"@ => JsonView::Text("paragraph"@), "content"@ => JsonView::Array(seq![leaf])],
    );
    assert(wraps(adf(text), "doc"@, paragraph));
    assert(wraps(paragraph, "paragraph"@, leaf));
}

// --- the request that a tool is there for -----------------------------------

/// The request adds a comment with this text, visible to all who see the issue.
pub open spec fn comment_sent(request: RequestView, p: AddCommentParams) -> bool {
    let document = request.payload->Document_0;
    &&& exists|body: JsonView| #[trigger] holds(document, "body"@, body) && says(body, p.body@)
    &&& lacks(document, "visibility"@)
}

/// The request takes the transition, and adds the comment where there is one.
pub open spec fn transition_sent(request: RequestView, p: TransitionParams) -> bool {
    let document = request.payload->Document_0;
    &&& holds2(document, "transition"@, "id"@, JsonView::Text(p.transition_id@))
    &&& lacks(document, "fields"@)
    &&& match p.comment {
        Some(text) => exists|added: JsonView, body: JsonView|
            {
                &&& #[trigger] holds2(
                    document,
                    "update"@,
                    "comment"@,
                    JsonView::Array(seq![added]),
                )
                &&& #[trigger] holds2(added, "add"@, "body"@, body)
                &&& says(body, text@)
            },
        None => lacks(document, "update"@),
    }
}

/// The request sets the assignee, and nothing else.
pub open spec fn assignment_sent(request: RequestView, p: AssignParams) -> bool {
    let document = request.payload->Document_0;
    exists|fields: JsonView|
        {
            &&& #[trigger] holds(document, "fields"@, fields)
            &&& forall|name: Seq<char>| name != "assignee"@ ==> #[trigger] lacks(fields, name)
            &&& match p.account_id {
                Some(id) => holds2(fields, "assignee"@, "accountId"@, JsonView::Text(id@)),
                None => holds(fields, "assignee"@, JsonView::Null),
            }
        }
}

/// The request links the two issues, each on its side, with that type.
pub open spec fn link_sent(request: RequestView, p: LinkParams) -> bool {
    let document = request.payload->Document_0;
    &&& holds2(document, "type"@, "name"@, JsonView::Text(p.link_type@))
    &&& holds2(document, "inwardIssue"@, "key"@, JsonView::Text(p.inward_key@))
    &&& holds2(document, "outwardIssue"@, "key"@, JsonView::Text(p.outward_key@))
}

/// The largest size of an attachment is zero, which is none, or is not passed.
pub open spec fn small_enough(keep: KeepView, size: int) -> bool {
    keep.policy.global.max_attachment_bytes == 0 || size <= keep.policy.global.max_attachment_bytes
}

/// The request uploads the file: its name, and the bytes that its content
/// stands for, which are no more than the policy allows.
pub open spec fn upload_sent(keep: KeepView, request: RequestView, p: AddAttachmentParams) -> bool {
    &&& request.headers.contains(("X-Atlassian-Token"@, "no-check"@))
    &&& request.payload matches PayloadView::File { filename, data }
    &&& filename == p.filename@
    &&& base64_bytes(trimmed(p.content_base64@)) == Some(data)
    &&& small_enough(keep, data.len() as int)
}

/// Every element is an object whose `name` is the text at the same place.
pub open spec fn names_list(value: JsonView, list: Seq<Seq<char>>) -> bool {
    value matches JsonView::Array(items) && items.len() == list.len() && forall|i: int|
        0 <= i < items.len() ==> holds(#[trigger] items[i], "name"@, JsonView::Text(list[i]))
}

/// Every element is the text at the same place.
pub open spec fn texts_list(value: JsonView, list: Seq<Seq<char>>) -> bool {
    value matches JsonView::Array(items) && items.len() == list.len() && forall|i: int|
        0 <= i < items.len() ==> #[trigger] items[i] == JsonView::Text(list[i])
}

/// The request files the issue with what the call gives of it, and nothing in
/// the place of what it does not give.
pub open spec fn creation_sent(request: RequestView, p: CreateIssueParams) -> bool {
    let document = request.payload->Document_0;
    exists|fields: JsonView|
        {
            &&& #[trigger] holds(document, "fields"@, fields)
            &&& holds2(fields, "project"@, "key"@, JsonView::Text(p.project_key@))
            &&& holds(fields, "summary"@, JsonView::Text(p.summary@))
            &&& holds2(fields, "issuetype"@, "name"@, JsonView::Text(p.issue_type@))
            &&& match p.description {
                Some(text) => exists|body: JsonView| #[trigger]
                    holds(fields, "description"@, body) && says(body, text@),
                None => lacks(fields, "description"@),
            }
            &&& match p.labels {
                Some(list) => exists|value: JsonView| #[trigger]
                    holds(fields, "labels"@, value) && texts_list(value, texts(list@)),
                None => lacks(fields, "labels"@),
            }
            &&& match p.components {
                Some(list) => exists|value: JsonView| #[trigger]
                    holds(fields, "components"@, value) && names_list(value, texts(list@)),
                None => lacks(fields, "components"@),
            }
            &&& match p.priority {
                Some(name) => holds2(fields, "priority"@, "name"@, JsonView::Text(name@)),
                None => lacks(fields, "priority"@),
            }
        }
}

/// A page of a list, from its beginning.
pub open spec fn first_page(size: int) -> Seq<(Seq<char>, Seq<char>)> {
    seq![("startAt"@, "0"@), ("maxResults"@, numeral(size as nat))]
}

/// The request that a tool is there for.
pub open spec fn serves_the_call(
    keep: KeepView,
    creds: Credentials,
    call: ToolCall,
    request: RequestView,
) -> bool {
    match call {
        ToolCall::JiraServerInfo => asks(keep, creds, request, "/serverInfo"@, Seq::empty()),
        ToolCall::ListFilters => asks(keep, creds, request, "/filter/favourite"@, Seq::empty()),
        ToolCall::IssueComments(p) => asks(
            keep,
            creds,
            request,
            to_issue(p.key@, "/comment"@),
            first_page(least(p.max_results as int, 100)).push(("orderBy"@, "created"@)),
        ),
        ToolCall::SummarizeIssue(p) => asks(
            keep,
            creds,
            request,
            to_issue(p.key@, "/comment"@),
            first_page(100).push(("orderBy"@, "created"@)),
        ),
        ToolCall::IssueHistory(p) => asks(
            keep,
            creds,
            request,
            to_issue(p.key@, "/changelog"@),
            first_page(least(p.max_results as int, 100)),
        ),
        ToolCall::ListAttachments(p) => asks(
            keep,
            creds,
            request,
            to_issue(p.key@, Seq::empty()),
            seq![("fields"@, "attachment"@)],
        ),
        ToolCall::DownloadAttachment(p) => asks(
            keep,
            creds,
            request,
            to_issue(p.key@, Seq::empty()),
            seq![("fields"@, "attachment"@)],
        ),
        ToolCall::ListTransitions(p) => asks(
            keep,
            creds,
            request,
            to_issue(p.key@, "/transitions"@),
            Seq::empty(),
        ),
        ToolCall::AddComment(p) => {
            &&& brings(keep, creds, request, Method::Post, to_issue(p.key@, "/comment"@))
            &&& comment_sent(request, p)
        },
        ToolCall::TransitionIssue(p) => {
            &&& brings(keep, creds, request, Method::Post, to_issue(p.key@, "/transitions"@))
            &&& transition_sent(request, p)
        },
        ToolCall::AssignIssue(p) => {
            &&& brings(keep, creds, request, Method::Put, to_issue(p.key@, Seq::empty()))
            &&& assignment_sent(request, p)
        },
        ToolCall::UpdateIssueFields(p) => {
            &&& brings(keep, creds, request, Method::Put, to_issue(p.key@, Seq::empty()))
            &&& holds(request.payload->Document_0, "fields"@, p.fields@)
        },
        ToolCall::AddWatcher(p) => {
            &&& brings(keep, creds, request, Method::Post, to_issue(p.key@, "/watchers"@))
            &&& request.payload->Document_0 == JsonView::Text(p.account_id@)
        },
        ToolCall::LinkIssues(p) => {
            &&& brings(keep, creds, request, Method::Post, "/issueLink"@)
            &&& link_sent(request, p)
        },
        ToolCall::AddAttachment(p) => {
            &&& calls(keep, creds, request, Method::Post, to_issue(p.key@, "/attachments"@))
            &&& upload_sent(keep, request, p)
        },
        ToolCall::CreateIssue(p) => {
            &&& brings(keep, creds, request, Method::Post, "/issue"@)
            &&& creation_sent(request, p)
        },
        _ => false,
    }
}

// --- downloads --------------------------------------------------------------

/// Attachment metadata has the id, as a text or as a number.
pub open spec fn is_attachment(meta: JsonView, id: Seq<char>) -> bool {
    ||| holds(meta, "id"@, JsonView::Text(id))
    ||| exists|n: nat| #[trigger] holds(meta, "id"@, JsonView::Unsigned(n)) && numeral(n) == id
}

/// Where the content of an attachment is, by the address in its metadata: that
/// address where it is a web address, and else the place below the site.
pub open spec fn located(keep: KeepView, content: Seq<char>) -> Seq<char> {
    if (content.len() >= 7 && content.take(7) == "http://"@) || (content.len() >= 8 && content.take(
        8,
    ) == "https://"@) {
        content
    } else if content.len() > 0 && content[0] == '/' {
        keep.client.base_url + content
    } else {
        keep.client.base_url + "/"@ + content
    }
}

/// The request fetches the content of the attachment, from the site itself and
/// from nowhere else; where the policy has a largest size, the size is known
/// not to pass it, and no more is read.
pub open spec fn downloads_it(
    keep: KeepView,
    creds: Credentials,
    p: DownloadAttachmentParams,
    meta: JsonView,
    request: RequestView,
) -> bool {
    let most_bytes = keep.policy.global.max_attachment_bytes;
    &&& is_attachment(meta, p.attachment_id@)
    &&& request.method == Method::Get
    &&& request.payload is Nothing
    &&& signed(keep, creds, request)
    &&& request.transfer == (Transfer::Bytes {
        limit: if most_bytes == 0 {
            None
        } else {
            Some(most_bytes as u64)
        },
    })
    &&& most_bytes == 0 || exists|size: nat| #[trigger]
        holds(meta, "size"@, JsonView::Unsigned(size)) && size <= most_bytes
    &&& exists|content: Seq<char>|
        {
            let site = url_read(keep.client.base_url);
            let target = #[trigger] url_read(located(keep, content));
            &&& holds(meta, "content"@, JsonView::Text(content))
            &&& site is Some && target is Some
            &&& site->0.origin is Some
            &&& target->0.origin == site->0.origin
            &&& request.url == target->0.text
        }
}

pub(crate) proof fn lemma_located(keep: KeepView, content: Seq<char>)
    ensures
        located(keep, content) == content_address(keep.client.base_url, content),
{
    reveal_strlit("http://");
    reveal_strlit("https://");
    reveal_strlit("/");
    assert("http://"@.len() == 7);
    assert("https://"@.len() == 8);
    assert("/"@.len() == 1 && "/"@[0] == '/');
    if content.len() > 0 {
        assert(content.take(1)[0] == content[0]);
        if content[0] == '/' {
            assert(content.take(1) =~= "/"@);
        }
    }
}

pub(crate) proof fn lemma_attachment_with(items: Seq<JsonView>, id: Seq<char>)
    ensures
        attachment_with(items, id) matches Some(meta) ==> items.contains(meta) && is_attachment(
            meta,
            id,
        ),
        attachment_with(items, id) is None ==> forall|i: int|
            0 <= i < items.len() ==> !is_attachment(#[trigger] items[i], id),
    decreases items.len(),
{
    if items.len() > 0 {
        assert forall|meta: JsonView| #[trigger] has_id(meta, id) == is_attachment(meta, id) by {
            if let Some(JsonView::Unsigned(n)) = meta.get("id"@) {
                assert(holds(meta, "id"@, JsonView::Unsigned(n)));
            }
        }
        let rest = items.drop_first();
        lemma_attachment_with(rest, id);
        assert(has_id(items[0], id) == is_attachment(items[0], id));
        if let Some(meta) = attachment_with(items, id) {
            if has_id(items[0], id) {
                assert(items[0] == meta);
            } else {
                let i = choose|i: int| 0 <= i < rest.len() && rest[i] == meta;
                assert(items[i + 1] == meta);
            }
        } else {
            assert forall|i: int| 0 <= i < items.len() implies !is_attachment(
                #[trigger] items[i],
                id,
            ) by {
                if i > 0 {
                    assert(rest[i - 1] == items[i]);
                }
            }
        }
    }
}

// --- searching --------------------------------------------------------------

/// What a call for a search gives: the number of issues that it wants, the
/// token of the page and the offset.
pub open spec fn wanted_of(call: ToolCall) -> (u32, Option<String>, Option<u32>) {
    match call {
        ToolCall::IssuesSearch(p) => (p.max_results, p.next_page_token, p.start_at),
        ToolCall::SearchFilter(p) => (p.max_results, p.next_page_token, p.start_at),
        _ => (0, None, None),
    }
}

/// The issues to ask for: twice as many as are to be served, of which there are
/// fifty at most, but at least one.
pub open spec fn page_to_ask(max_results: u32) -> int {
    most(1, 2 * least(max_results as int, 50))
}

/// The request searches with `jql` for what the call wants. By token it goes on
/// where the page before it ended, by offset it begins where the call says.
pub open spec fn searches_for(
    keep: KeepView,
    creds: Credentials,
    call: ToolCall,
    request: RequestView,
    jql: Seq<char>,
    by_token: bool,
) -> bool {
    let document = request.payload->Document_0;
    let (max_results, token, start_at) = wanted_of(call);
    &&& brings(
        keep,
        creds,
        request,
        Method::Post,
        if by_token {
            "/search/jql"@
        } else {
            "/search"@
        },
    )
    &&& holds(document, "jql"@, JsonView::Text(jql))
    &&& holds(document, "maxResults"@, JsonView::Unsigned(page_to_ask(max_results) as nat))
    &&& exists|value: JsonView| #[trigger]
        holds(document, "fields"@, value) && texts_list(value, parts(CLASSIFY_FIELDS@, ','))
    &&& if by_token {
        &&& lacks(document, "startAt"@)
        &&& match token {
            Some(t) => holds(document, "nextPageToken"@, JsonView::Text(t@)),
            None => lacks(document, "nextPageToken"@),
        }
    } else {
        &&& lacks(document, "nextPageToken"@)
        &&& holds(
            document,
            "startAt"@,
            JsonView::Unsigned(
                match start_at {
                    Some(n) => n as nat,
                    None => 0,
                },
            ),
        )
    }
}

/// The query of a search holds what the call gives.
spec fn query_of_call(call: ToolCall, query: QueryView) -> bool {
    let (max_results, token, start_at) = wanted_of(call);
    &&& query == query_of(query.jql, page_size(max_results), token, start_at)
    &&& call matches ToolCall::IssuesSearch(p) ==> query.jql == p.jql@
}

proof fn lemma_search_names()
    ensures
        "jql"@.len() == 3,
        "maxResults"@.len() == 10,
        "fields"@.len() == 6,
        "startAt"@.len() == 7,
        "nextPageToken"@.len() == 13,
{
    reveal_strlit("jql");
    reveal_strlit("maxResults");
    reveal_strlit("fields");
    reveal_strlit("startAt");
    reveal_strlit("nextPageToken");
}

proof fn lemma_token_search(keep: KeepView, creds: Credentials, call: ToolCall, query: QueryView)
    requires
        query_of_call(call, query),
    ensures
        searches_for(
            keep,
            creds,
            call,
            search_request(keep.client, creds, query),
            query.jql,
            keep.client.api_version == ApiVersion::V3,
        ),
        searches_for(
            keep,
            creds,
            call,
            offset_search_request(keep.client, creds, query),
            query.jql,
            false,
        ),
{
    lemma_search_names();
    let first = search_request(keep.client, creds, query);
    let second = offset_search_request(keep.client, creds, query);
    let fields = text_array(query.fields);
    assert(first.headers[0] == ("Accept"@, "application/json"@));
    assert(second.headers[0] == ("Accept"@, "application/json"@));
    assert(holds(first.payload->Document_0, "fields"@, fields));
    assert(holds(second.payload->Document_0, "fields"@, fields));
    assert(texts_list(fields, parts(CLASSIFY_FIELDS@, ',')));
}

// --- which request follows --------------------------------------------------

/// What a call has asked for, by what it waits for.
spec fn in_form(keep: KeepView, after: (RunView, StepView)) -> bool {
    let run = after.0;
    let creds = run.creds;
    let call = run.call;
    match after.1 {
        StepView::Finish(_) => run.stage is Done,
        StepView::Call(request) => match run.stage {
            StageView::Identity => asks(keep, creds, request, "/myself"@, Seq::empty()),
            StageView::Gate { index } => {
                &&& 0 <= index < gates(call).len()
                &&& trimmed(gates(call)[index].0).len() > 0
                &&& asks_to_classify(keep, creds, request, trimmed(gates(call)[index].0))
            },
            StageView::Main => serves_the_call(keep, creds, call, request),
            StageView::Filter => call matches ToolCall::SearchFilter(p) && asks(
                keep,
                creds,
                request,
                "/filter/"@ + escaped(p.filter_id@),
                Seq::empty(),
            ),
            StageView::Search { query, limit, retried } => {
                &&& call is IssuesSearch || call is SearchFilter
                &&& query_of_call(call, query)
                &&& limit == least(wanted_of(call).0 as int, 50)
                &&& searches_for(
                    keep,
                    creds,
                    call,
                    request,
                    query.jql,
                    keep.client.api_version == ApiVersion::V3 && !retried,
                )
            },
            StageView::Download { meta } => call matches ToolCall::DownloadAttachment(p)
                && downloads_it(keep, creds, p, meta, request),
            StageView::Keys { .. } => call is IssueInfo && exists|key: Seq<char>| #[trigger]
                asks_to_classify(keep, creds, request, key),
            StageView::Full { info, .. } => call is IssueInfo && asks(
                keep,
                creds,
                request,
                to_issue(info.keys[info.next], Seq::empty()),
                Seq::empty(),
            ),
            StageView::Linked { .. } => exists|key: Seq<char>| #[trigger]
                asks_to_classify(keep, creds, request, key),
            StageView::Done => false,
        },
    }
}

/// A step keeps the call and its credentials, and is in form.
spec fn steps_on(keep: KeepView, run: RunView, after: (RunView, StepView)) -> bool {
    &&& after.0.call == run.call
    &&& after.0.creds == run.creds
    &&& after.0.caller == run.caller
    &&& !(after.0.stage is Identity)
    &&& in_form(keep, after)
}

proof fn lemma_accepts(request: RequestView)
    requires
        request.headers == seq![("Accept"@, "application/json"@)],
    ensures
        request.headers.contains(("Accept"@, "application/json"@)),
{
    assert(request.headers[0] == ("Accept"@, "application/json"@));
}

proof fn lemma_classifies(keep: KeepView, run: RunView, key: Seq<char>)
    ensures
        asks_to_classify(
            keep,
            run.creds,
            crate::flow::classify_request(keep, run, key),
            key,
        ),
{
    lemma_accepts(crate::flow::classify_request(keep, run, key));
}

proof fn lemma_zero()
    ensures
        numeral(0) == "0"@,
{
    reveal_strlit("0");
    assert(numeral(0) =~= "0"@);
}

proof fn lemma_comment_sent(keep: KeepView, creds: Credentials, p: AddCommentParams)
    ensures
        comment_sent(
            crate::client::comment_request(keep.client, creds, p.key@, p.body@, None),
            p,
        ),
{
    let request = crate::client::comment_request(keep.client, creds, p.key@, p.body@, None);
    lemma_says(p.body@);
    reveal_strlit("body");
    reveal_strlit("visibility");
    assert("body"@.len() == 4);
    assert("visibility"@.len() == 10);
    assert(holds(request.payload->Document_0, "body"@, adf(p.body@)));
}

proof fn lemma_transition_sent(keep: KeepView, creds: Credentials, p: TransitionParams)
    ensures
        transition_sent(
            crate::client::transition_request(
                keep.client,
                creds,
                p.key@,
                p.transition_id@,
                None,
                optional_text(p.comment),
            ),
            p,
        ),
{
    let request = crate::client::transition_request(
        keep.client,
        creds,
        p.key@,
        p.transition_id@,
        None,
        optional_text(p.comment),
    );
    let document = request.payload->Document_0;
    reveal_strlit("transition");
    reveal_strlit("fields");
    reveal_strlit("update");
    assert("transition"@.len() == 10);
    assert("fields"@.len() == 6 && "fields"@[0] == 'f');
    assert("update"@.len() == 6 && "update"@[0] == 'u');
    let id = JsonView::Object(map!["id"@ => JsonView::Text(p.transition_id@)]);
    assert(holds(document, "transition"@, id));
    if let Some(text) = p.comment {
        lemma_says(text@);
        let part = JsonView::Object(map!["body"@ => adf(text@)]);
        let added = JsonView::Object(map!["add"@ => part]);
        let update = JsonView::Object(map!["comment"@ => JsonView::Array(seq![added])]);
        assert(holds(document, "update"@, update));
        assert(holds2(document, "update"@, "comment"@, JsonView::Array(seq![added])));
        assert(holds(added, "add"@, part));
        assert(holds2(added, "add"@, "body"@, adf(text@)));
    }
}

proof fn lemma_assignment_sent(keep: KeepView, creds: Credentials, p: AssignParams)
    ensures
        assignment_sent(
            crate::client::update_request(
                keep.client,
                creds,
                p.key@,
                crate::flow::assignment(optional_text(p.account_id)),
            ),
            p,
        ),
{
    let fields = crate::flow::assignment(optional_text(p.account_id));
    let request = crate::client::update_request(keep.client, creds, p.key@, fields);
    assert(holds(request.payload->Document_0, "fields"@, fields));
    if let Some(id) = p.account_id {
        let account = JsonView::Object(map!["accountId"@ => JsonView::Text(id@)]);
        assert(holds(fields, "assignee"@, account));
    }
}

proof fn lemma_link_sent(keep: KeepView, creds: Credentials, p: LinkParams)
    ensures
        link_sent(
            crate::client::link_request(
                keep.client,
                creds,
                p.link_type@,
                p.inward_key@,
                p.outward_key@,
            ),
            p,
        ),
{
    let request = crate::client::link_request(
        keep.client,
        creds,
        p.link_type@,
        p.inward_key@,
        p.outward_key@,
    );
    let document = request.payload->Document_0;
    reveal_strlit("type");
    reveal_strlit("inwardIssue");
    reveal_strlit("outwardIssue");
    assert("type"@.len() == 4);
    assert("inwardIssue"@.len() == 11);
    assert("outwardIssue"@.len() == 12);
    let kind = JsonView::Object(map!["name"@ => JsonView::Text(p.link_type@)]);
    let inward = JsonView::Object(map!["key"@ => JsonView::Text(p.inward_key@)]);
    let outward = JsonView::Object(map!["key"@ => JsonView::Text(p.outward_key@)]);
    assert(holds(document, "type"@, kind));
    assert(holds(document, "inwardIssue"@, inward));
    assert(holds(document, "outwardIssue"@, outward));
}

proof fn lemma_creation_names()
    ensures
        "project"@.len() == 7,
        "summary"@.len() == 7,
        "issuetype"@.len() == 9,
        "description"@.len() == 11,
        "labels"@.len() == 6,
        "components"@.len() == 10,
        "priority"@.len() == 8,
        "project"@[0] == 'p',
        "summary"@[0] == 's',
{
    reveal_strlit("project");
    reveal_strlit("summary");
    reveal_strlit("issuetype");
    reveal_strlit("description");
    reveal_strlit("labels");
    reveal_strlit("components");
    reveal_strlit("priority");
}

proof fn lemma_creation_sent(keep: KeepView, creds: Credentials, p: CreateIssueParams)
    ensures
        creation_sent(
            crate::client::create_request(keep.client, creds, creation_fields(p)),
            p,
        ),
{
    let fields = creation_fields(p);
    let request = crate::client::create_request(keep.client, creds, fields);
    lemma_creation_names();
    assert(holds(request.payload->Document_0, "fields"@, fields));
    let project = JsonView::Object(map!["key"@ => JsonView::Text(p.project_key@)]);
    assert(holds(fields, "project"@, project));
    assert(holds(fields, "summary"@, JsonView::Text(p.summary@)));
    let kind = JsonView::Object(map!["name"@ => JsonView::Text(p.issue_type@)]);
    assert(holds(fields, "issuetype"@, kind));
    if let Some(text) = p.description {
        lemma_says(text@);
        assert(holds(fields, "description"@, adf(text@)));
    }
    if let Some(list) = p.labels {
        assert(holds(fields, "labels"@, text_array(texts(list@))));
    }
    if let Some(list) = p.components {
        let all = optional_texts(p.components)->0;
        let value = JsonView::Array(
            Seq::new(all.len(), |i: int| crate::flow::named(all[i])),
        );
        assert(holds(fields, "components"@, value));
        assert(names_list(value, texts(list@)));
    }
    if let Some(name) = p.priority {
        let value = JsonView::Object(map!["name"@ => JsonView::Text(name@)]);
        assert(holds(fields, "priority"@, value));
    }
}

proof fn lemma_proceeds(keep: KeepView, run: RunView)
    ensures
        steps_on(keep, run, proceeds(keep, run)),
        proceeds(keep, run).0.stage is Main || proceeds(keep, run).0.stage is Done,
{
    lemma_zero();
    match run.call {
        ToolCall::AddComment(p) => lemma_comment_sent(keep, run.creds, p),
        ToolCall::TransitionIssue(p) => lemma_transition_sent(keep, run.creds, p),
        ToolCall::AssignIssue(p) => lemma_assignment_sent(keep, run.creds, p),
        ToolCall::LinkIssues(p) => lemma_link_sent(keep, run.creds, p),
        _ => {},
    }
    if let StepView::Call(request) = proceeds(keep, run).1 {
        if run.call is AddAttachment {
            assert(request.headers[0] == ("Accept"@, "application/json"@));
            assert(request.headers[1] == ("X-Atlassian-Token"@, "no-check"@));
        } else {
            lemma_accepts(request);
        }
        match run.call {
            ToolCall::IssueComments(p) => {
                assert(request.query =~= first_page(least(p.max_results as int, 100)).push(
                    ("orderBy"@, "created"@),
                ));
            },
            ToolCall::SummarizeIssue(p) => {
                assert(request.query =~= first_page(100).push(("orderBy"@, "created"@)));
            },
            ToolCall::IssueHistory(p) => {
                assert(request.query =~= first_page(least(p.max_results as int, 100)));
            },
            _ => {},
        }
    }
}

proof fn lemma_gate_begun(keep: KeepView, run: RunView, index: int)
    requires
        0 <= index,
    ensures
        steps_on(keep, run, gate_begun(keep, run, index)),
{
    if index >= gates(run.call).len() {
        lemma_proceeds(keep, run);
    } else {
        let key = gates(run.call)[index].0;
        let wanted = fetch_list(seq![key]);
        reveal_with_fuel(crate::guard::distinct_keys, 2);
        assert(seq![key].drop_last() =~= Seq::<Seq<char>>::empty());
        assert(seq![key].last() == key);
        if wanted.len() > 0 {
            assert(wanted[0] == trimmed(key));
            lemma_classifies(keep, run, trimmed(key));
        }
    }
}

proof fn lemma_gate_decided(
    keep: KeepView,
    run: RunView,
    index: int,
    reply: Option<JsonView>,
    now: int,
)
    requires
        0 <= index,
    ensures
        steps_on(keep, run, gate_decided(keep, run, index, reply, now)),
{
    let entry = gate_entry(keep, run, index, reply, now);
    let noted = gate_noted(run, entry, gate_passed(keep, run, index, reply, now));
    lemma_gate_begun(keep, noted, index + 1);
}

proof fn lemma_info_goes_on(keep: KeepView, run: RunView, info: InfoView)
    requires
        run.call is IssueInfo,
    ensures
        steps_on(keep, run, info_goes_on(keep, run, info)),
    decreases info.keys.len() - info.next,
{
    if 0 <= info.next < info.keys.len() {
        let key = info.keys[info.next];
        let skipped = InfoView {
            next: info.next + 1,
            restricted: info.restricted.push(key),
            ..info
        };
        lemma_info_goes_on(keep, run, skipped);
        let request = crate::client::issue_request(keep.client, run.creds, key, None);
        lemma_accepts(request);
        if let Some((access, body)) = info.entries[info.next] {
            if let Some(summary) = projected(access, body) {
                let noted = RunView { cell: served_noted(run.cell, access), ..run };
                let served = InfoView {
                    next: info.next + 1,
                    issues: info.issues.push(summary),
                    ..info
                };
                lemma_info_goes_on(keep, noted, served);
            }
        }
    }
}

/// What waits for keys belongs to the call.
spec fn pending_of(call: ToolCall, pending: PendingView) -> bool {
    match pending {
        PendingView::Changelog(_) => call is IssueHistory,
        PendingView::Search(_) => call is IssuesSearch || call is SearchFilter,
        PendingView::Issue { .. } => call is IssueInfo,
    }
}

proof fn lemma_linked_fetched(
    keep: KeepView,
    run: RunView,
    named: Set<Seq<char>>,
    replies: Seq<Option<JsonView>>,
    pending: PendingView,
    now: int,
)
    requires
        pending_of(run.call, pending),
    ensures
        steps_on(keep, run, linked_fetched(keep, run, named, replies, pending, now)),
        in_place(linked_fetched(keep, run, named, replies, pending, now).0),
{
    let wanted = fetch_list(sorted(named));
    if replies.len() < wanted.len() {
        lemma_classifies(keep, run, wanted[replies.len() as int]);
    } else if let PendingView::Issue { info, access, body } = pending {
        let disclosable = disclosed_keys(keep.policy, named, replies, run.caller, now);
        let custom = keep.policy.global.link_custom_fields;
        let noted = RunView { cell: served_noted(run.cell, access), ..run };
        let next = InfoView {
            next: info.next + 1,
            issues: info.issues.push(scrubbed(body, custom, disclosable)),
            scrubbed: info.scrubbed + sorted(
                Set::new(|k: Seq<char>| scrubbed_key(body, custom, disclosable, k)),
            ),
            ..info
        };
        lemma_info_goes_on(keep, noted, next);
        lemma_info_in_place(keep, noted, next);
        assert(linked_fetched(keep, run, named, replies, pending, now) == info_goes_on(
            keep,
            noted,
            next,
        ));
    }
}

proof fn lemma_info_in_place(keep: KeepView, run: RunView, info: InfoView)
    requires
        run.call is IssueInfo,
    ensures
        in_place(info_goes_on(keep, run, info).0),
    decreases info.keys.len() - info.next,
{
    lemma_info_goes_on(keep, run, info);
    if 0 <= info.next < info.keys.len() {
        let key = info.keys[info.next];
        let skipped = InfoView {
            next: info.next + 1,
            restricted: info.restricted.push(key),
            ..info
        };
        lemma_info_in_place(keep, run, skipped);
        if let Some((access, body)) = info.entries[info.next] {
            if let Some(summary) = projected(access, body) {
                let noted = RunView { cell: served_noted(run.cell, access), ..run };
                let served = InfoView {
                    next: info.next + 1,
                    issues: info.issues.push(summary),
                    ..info
                };
                lemma_info_in_place(keep, noted, served);
            }
        }
    }
}

/// What a run holds while it waits belongs to its call.
spec fn in_place(run: RunView) -> bool {
    match run.stage {
        StageView::Gate { index } => 0 <= index,
        StageView::Search { query, limit, .. } => {
            &&& run.call is IssuesSearch || run.call is SearchFilter
            &&& query_of_call(run.call, query)
            &&& limit == least(wanted_of(run.call).0 as int, 50)
        },
        StageView::Keys { .. } => run.call is IssueInfo,
        StageView::Full { .. } => run.call is IssueInfo,
        StageView::Linked { pending, .. } => pending_of(run.call, pending),
        _ => true,
    }
}

proof fn lemma_searches(keep: KeepView, run: RunView, jql: Seq<char>)
    requires
        run.call is IssuesSearch || run.call is SearchFilter,
        run.call matches ToolCall::IssuesSearch(p) ==> jql == p.jql@,
    ensures
        ({
            let (max_results, token, start_at) = wanted_of(run.call);
            let query = query_of(jql, page_size(max_results), token, start_at);
            let after = searches(keep, run, query, page_size(max_results));
            steps_on(keep, run, after) && in_place(after.0)
        }),
{
    let (max_results, token, start_at) = wanted_of(run.call);
    let query = query_of(jql, page_size(max_results), token, start_at);
    lemma_token_search(keep, run.creds, run.call, query);
}

proof fn lemma_info_fetched(
    keep: KeepView,
    run: RunView,
    keys: Seq<Seq<char>>,
    replies: Seq<Option<JsonView>>,
    now: int,
)
    requires
        run.call is IssueInfo,
    ensures
        steps_on(keep, run, info_fetched(keep, run, keys, replies, now)),
        in_place(info_fetched(keep, run, keys, replies, now).0),
{
    let wanted = fetch_list(keys);
    if replies.len() < wanted.len() {
        lemma_classifies(keep, run, wanted[replies.len() as int]);
    } else {
        let info = InfoView {
            keys,
            entries: Seq::new(
                keys.len(),
                |i: int| assessment_of(keep.policy, keys, replies, run.caller, now, keys[i]),
            ),
            next: 0,
            issues: Seq::empty(),
            restricted: Seq::empty(),
            scrubbed: Seq::empty(),
        };
        lemma_info_goes_on(keep, run, info);
        lemma_info_in_place(keep, run, info);
    }
}

proof fn lemma_identified(keep: KeepView, run: RunView, now: int)
    ensures
        steps_on(keep, run, identified(keep, run, now)),
        in_place(identified(keep, run, now).0),
{
    match run.call {
        ToolCall::IssueInfo(p) => {
            let keys = cleaned(texts(p.keys@));
            if keys.len() <= MAX_ASSESS_KEYS {
                lemma_info_fetched(keep, run, keys, Seq::empty(), now);
            }
        },
        ToolCall::IssuesSearch(p) => {
            lemma_searches(keep, run, p.jql@);
        },
        ToolCall::SearchFilter(p) => {
            lemma_accepts(
                crate::client::filter_request(keep.client, run.creds, p.filter_id@),
            );
        },
        _ => {
            lemma_gate_begun(keep, run, 0);
        },
    }
}

proof fn lemma_starts(keep: KeepView, run: RunView, now: int)
    ensures
        begun(keep, run, now).0.call == run.call,
        begun(keep, run, now).0.creds == run.creds,
        begun(keep, run, now).0.caller == run.caller,
        in_form(keep, begun(keep, run, now)),
        in_place(begun(keep, run, now).0),
{
    if let StepView::Call(request) = begun(keep, run, now).1 {
        if request.headers == seq![("Accept"@, "application/json"@)] {
            lemma_accepts(request);
        }
    }
    match run.call {
        ToolCall::McpServerInfo => {},
        ToolCall::IssueUrl(_) => {},
        ToolCall::JiraServerInfo => {},
        ToolCall::ListFilters => {},
        ToolCall::CreateIssue(p) => {
            lemma_creation_sent(keep, run.creds, p);
        },
        _ => {
            lemma_identified(keep, run, now);
        },
    }
}

proof fn lemma_downloads(
    keep: KeepView,
    run: RunView,
    p: DownloadAttachmentParams,
    items: Seq<JsonView>,
)
    requires
        run.call == ToolCall::DownloadAttachment(p),
        keep.policy.global.max_attachment_bytes <= u64::MAX,
    ensures
        steps_on(keep, run, downloads(keep, run, p, items)),
{
    lemma_attachment_with(items, p.attachment_id@);
    if let Some(meta) = attachment_with(items, p.attachment_id@) {
        if let Some(content) = meta.text_at("content"@) {
            lemma_located(keep, content);
            assert(holds(meta, "content"@, JsonView::Text(content)));
        }
        if let Some(JsonView::Unsigned(size)) = meta.get("size"@) {
            assert(holds(meta, "size"@, JsonView::Unsigned(size)));
        }
    }
}

proof fn lemma_concluded(keep: KeepView, run: RunView, event: EventView, now: int)
    requires
        keep.policy.global.max_attachment_bytes <= u64::MAX,
    ensures
        steps_on(keep, run, concluded(keep, run, event, now)),
        in_place(concluded(keep, run, event, now).0),
{
    let outcome = event.document();
    match run.call {
        ToolCall::IssueHistory(p) => {
            if let Ok(v) = outcome {
                lemma_linked_fetched(
                    keep,
                    run,
                    changelog_keys(p.key@, v),
                    Seq::empty(),
                    PendingView::Changelog(v),
                    now,
                );
            }
        },
        ToolCall::DownloadAttachment(p) => {
            if let Ok(items) = attachments_of(outcome) {
                lemma_downloads(keep, run, p, items);
            }
        },
        _ => {},
    }
}

proof fn lemma_resumes(keep: KeepView, run: RunView, event: EventView, now: int)
    requires
        in_place(run),
        keep.policy.global.max_attachment_bytes <= u64::MAX,
    ensures
        steps_on(
            keep,
            RunView {
                caller: if run.stage is Identity {
                    resolved(keep.policy, account_id_of(event.document()))
                } else {
                    run.caller
                },
                ..run
            },
            resumed(keep, run, event, now),
        ),
        in_place(resumed(keep, run, event, now).0),
{
    let idle = RunView { stage: StageView::Done, ..run };
    let document = event.document();
    match run.stage {
        StageView::Identity => {
            let known = RunView {
                caller: resolved(keep.policy, account_id_of(document)),
                ..idle
            };
            lemma_identified(keep, known, now);
        },
        StageView::Gate { index } => {
            lemma_gate_decided(keep, idle, index, fetched(document), now);
        },
        StageView::Main => {
            lemma_concluded(keep, idle, event, now);
        },
        StageView::Filter => {
            if let (ToolCall::SearchFilter(p), Ok(filter)) = (run.call, document) {
                if let Some(jql) = filter.text_at("jql"@) {
                    lemma_searches(keep, idle, jql);
                }
            }
        },
        StageView::Search { query, limit, retried } => {
            lemma_token_search(keep, run.creds, run.call, query);
            if let Ok(envelope) = document {
                let scan = scan_of(keep.policy, envelope, limit, run.caller, now);
                lemma_linked_fetched(
                    keep,
                    idle,
                    scan.candidates,
                    Seq::empty(),
                    PendingView::Search(scan),
                    now,
                );
            }
        },
        StageView::Keys { keys, replies } => {
            lemma_info_fetched(keep, idle, keys, replies.push(fetched(document)), now);
        },
        StageView::Full { info, access, body } => {
            let full = ungated_issue(
                access,
                match document {
                    Ok(v) => v,
                    Err(_) => body,
                },
            );
            lemma_linked_fetched(
                keep,
                idle,
                issue_keys(keep.policy, info.keys[info.next], full),
                Seq::empty(),
                PendingView::Issue { info, access, body: full },
                now,
            );
        },
        StageView::Linked { named, replies, pending } => {
            lemma_linked_fetched(
                keep,
                idle,
                named,
                replies.push(fetched(document)),
                pending,
                now,
            );
        },
        _ => {},
    }
}

/// The largest size in a policy is a number of a policy file.
pub open spec fn of_a_file(keep: KeepView) -> bool {
    0 <= keep.policy.global.max_attachment_bytes <= u64::MAX
}

proof fn lemma_run_in_form(trace: Trace, n: int)
    requires
        0 <= n,
        of_a_file(trace.keep),
    ensures
        trace.after(n).0.call == trace.call,
        trace.after(n).0.creds == trace.creds,
        in_form(trace.keep, trace.after(n)),
        in_place(trace.after(n).0),
        trace.after(n).0.stage is Identity ==> n == 0,
        trace.after(n).0.caller == if n > 0 && trace.after(0).0.stage is Identity {
            resolved(trace.keep.policy, account_id_of(trace.inputs[0].0.document()))
        } else {
            None
        },
    decreases n,
{
    if n == 0 {
        lemma_starts(trace.keep, fresh(trace.call, trace.creds), trace.start);
    } else {
        lemma_run_in_form(trace, n - 1);
        lemma_resumes(
            trace.keep,
            trace.after(n - 1).0,
            trace.inputs[n - 1].0,
            trace.inputs[n - 1].1,
        );
    }
}

// --- laws -------------------------------------------------------------------

/// A run keeps its call and its credentials from its first step to its last.
pub proof fn a_run_keeps_its_call(trace: Trace, n: int)
    requires
        0 <= n,
        of_a_file(trace.keep),
    ensures
        trace.after(n).0.call == trace.call,
        trace.after(n).0.creds == trace.creds,
        trace.after(n).1 is Finish ==> trace.after(n).0.stage is Done,
{
    lemma_run_in_form(trace, n);
}

/// A rule of the policy asks who created an issue.
pub open spec fn asks_who(policy: PolicyView) -> bool {
    exists|i: int|
        0 <= i < policy.rules.len() && (#[trigger] policy.rules[i]).criteria.created_by_me is Some
}

/// The account id that the site tells, where it tells one that is not blank.
pub open spec fn account_told(event: EventView) -> Option<Seq<char>> {
    match event {
        EventView::Document(Ok(v)) => match v.text_at("accountId"@) {
            Some(id) => if trimmed(id).len() > 0 {
                Some(id)
            } else {
                None
            },
            None => None,
        },
        _ => None,
    }
}

/// The tools that go by no issue and ask for none.
pub open spec fn asks_no_policy(call: ToolCall) -> bool {
    call is McpServerInfo || call is IssueUrl || call is JiraServerInfo || call is ListFilters
        || call is CreateIssue
}

/// Who the caller is comes from the site, and is asked for first, exactly where
/// a rule of the policy wants to know; where the site does not tell, it stays
/// unknown throughout the run.
pub proof fn the_caller_is_who_the_site_says(trace: Trace, n: int)
    requires
        0 <= n <= trace.inputs.len(),
        of_a_file(trace.keep),
    ensures
        ({
            let first = asks_who(trace.keep.policy) && !asks_no_policy(trace.call);
            &&& first ==> trace.after(0).1 is Call && asks(
                trace.keep,
                trace.creds,
                trace.after(0).1->Call_0,
                "/myself"@,
                Seq::empty(),
            )
            &&& trace.after(n).0.caller == if first && n > 0 {
                account_told(trace.inputs[0].0)
            } else {
                None
            }
        }),
{
    lemma_run_in_form(trace, n);
    lemma_run_in_form(trace, 0);
    assert(asks_who(trace.keep.policy) == asks_identity(trace.keep.policy));
    let run = fresh(trace.call, trace.creds);
    lemma_identified(trace.keep, run, trace.start);
}

/// A tool that is assessed on issues waits for nothing but who the caller is,
/// those issues, the reply to its request and what that names.
pub(crate) proof fn lemma_stages(trace: Trace, n: int)
    requires
        0 <= n,
        of_a_file(trace.keep),
        gates(trace.call).len() > 0,
    ensures
        match trace.after(n).0.stage {
            StageView::Identity => trace.after(n).1 is Call,
            StageView::Gate { index } => trace.after(n).1 is Call && 0 <= index < gates(
                trace.call,
            ).len(),
            StageView::Main => trace.after(n).1 is Call,
            StageView::Linked { .. } => trace.call is IssueHistory,
            StageView::Download { .. } => trace.call is DownloadAttachment,
            StageView::Done => trace.after(n).1 is Finish,
            _ => false,
        },
{
    lemma_run_in_form(trace, n);
}

pub(crate) proof fn lemma_download_call(trace: Trace, n: int)
    requires
        0 <= n,
        of_a_file(trace.keep),
        trace.after(n).0.stage is Download,
    ensures
        trace.call is DownloadAttachment,
{
    lemma_run_in_form(trace, n);
}

/// The content of an attachment is fetched from the site alone, for the
/// attachment that the call names, and no more of it than the policy allows.
pub proof fn a_download_comes_from_the_site(trace: Trace, n: int)
    requires
        0 <= n <= trace.inputs.len(),
        of_a_file(trace.keep),
        trace.after(n).0.stage is Download,
    ensures
        trace.call is DownloadAttachment,
        trace.after(n).1 is Call,
        downloads_it(
            trace.keep,
            trace.creds,
            trace.call->DownloadAttachment_0,
            trace.after(n).0.stage->Download_meta,
            trace.after(n).1->Call_0,
        ),
{
    lemma_run_in_form(trace, n);
}

/// At a gate the call asks for the issue of that gate.
pub(crate) proof fn lemma_gate_asks(trace: Trace, n: int, index: int)
    requires
        0 <= n,
        of_a_file(trace.keep),
        trace.after(n).0.stage == (StageView::Gate { index }),
    ensures
        trace.after(n).1 is Call,
        0 <= index < gates(trace.call).len(),
        asks_to_classify(
            trace.keep,
            trace.creds,
            trace.after(n).1->Call_0,
            trimmed(gates(trace.call)[index].0),
        ),
{
    lemma_run_in_form(trace, n);
}

/// The key of an issue that a call waits for is not blank.
pub(crate) proof fn lemma_gate_key(trace: Trace, n: int, index: int)
    requires
        0 <= n,
        of_a_file(trace.keep),
        trace.after(n).0.stage == (StageView::Gate { index }),
    ensures
        trimmed(gates(trace.call)[index].0).len() > 0,
{
    lemma_run_in_form(trace, n);
}

pub(crate) proof fn lemma_search_stage(trace: Trace, n: int)
    requires
        0 <= n,
        of_a_file(trace.keep),
        trace.after(n).0.stage is Search,
    ensures
        trace.call is IssuesSearch || trace.call is SearchFilter,
        trace.after(n).1 is Call,
        trace.after(n).0.stage->Search_limit == least(wanted_of(trace.call).0 as int, 50),
        searches_for(
            trace.keep,
            trace.creds,
            trace.call,
            trace.after(n).1->Call_0,
            trace.after(n).0.stage->Search_query.jql,
            trace.keep.client.api_version == ApiVersion::V3
                && !trace.after(n).0.stage->Search_retried,
        ),
        trace.call matches ToolCall::IssuesSearch(p) ==> trace.after(n).0.stage->Search_query.jql
            == p.jql@,
{
    lemma_run_in_form(trace, n);
}

/// The step at which a call that goes by the policy sends its own first request:
/// the first, or the second where the caller has to be known.
pub open spec fn first_own_step(keep: KeepView) -> int {
    if asks_who(keep.policy) {
        1
    } else {
        0
    }
}

/// A search is sent with the query, the page token and the offset of the call,
/// by token on the newer interface and by offset on the older.
pub proof fn a_search_asks_for_what_the_call_wants(trace: Trace)
    requires
        of_a_file(trace.keep),
        trace.call is IssuesSearch,
        first_own_step(trace.keep) <= trace.inputs.len(),
    ensures
        ({
            let step = trace.after(first_own_step(trace.keep)).1;
            step is Call && searches_for(
                trace.keep,
                trace.creds,
                trace.call,
                step->Call_0,
                trace.call->IssuesSearch_0.jql@,
                trace.keep.client.api_version == ApiVersion::V3,
            )
        }),
{
    let n = first_own_step(trace.keep);
    assert(asks_who(trace.keep.policy) == asks_identity(trace.keep.policy));
    reveal_with_fuel(Trace::after, 3);
    assert(trace.after(n).0.stage is Search && !trace.after(n).0.stage->Search_retried);
    lemma_search_stage(trace, n);
}

/// A search through a saved filter asks for the filter that the call names, and
/// then searches with the query of that filter and with the page token and the
/// offset of the call; a filter without a query, or that did not come, ends the
/// call with an error text.
pub proof fn a_filter_search_asks_for_what_the_call_wants(trace: Trace)
    requires
        of_a_file(trace.keep),
        trace.call is SearchFilter,
        first_own_step(trace.keep) < trace.inputs.len(),
    ensures
        ({
            let n = first_own_step(trace.keep);
            let p = trace.call->SearchFilter_0;
            let step = trace.after(n).1;
            let next = trace.after(n + 1).1;
            &&& step is Call && asks(
                trace.keep,
                trace.creds,
                step->Call_0,
                "/filter/"@ + escaped(p.filter_id@),
                Seq::empty(),
            )
            &&& match trace.inputs[n].0 {
                EventView::Document(Ok(filter)) => match filter.text_at("jql"@) {
                    Some(jql) => next is Call && searches_for(
                        trace.keep,
                        trace.creds,
                        trace.call,
                        next->Call_0,
                        jql,
                        trace.keep.client.api_version == ApiVersion::V3,
                    ),
                    None => next matches StepView::Finish(OutcomeView::Failure(_)),
                },
                _ => next matches StepView::Finish(OutcomeView::Failure(_)),
            }
        }),
{
    let n = first_own_step(trace.keep);
    assert(asks_who(trace.keep.policy) == asks_identity(trace.keep.policy));
    reveal_with_fuel(Trace::after, 3);
    assert(trace.after(n).0.stage is Filter);
    lemma_run_in_form(trace, n);
    if let EventView::Document(Ok(filter)) = trace.inputs[n].0 {
        if let Some(jql) = filter.text_at("jql"@) {
            assert(trace.after(n + 1).0.stage is Search);
            assert(trace.after(n + 1).0.stage->Search_query.jql == jql);
            assert(!trace.after(n + 1).0.stage->Search_retried);
            lemma_search_stage(trace, n + 1);
        }
    }
}

/// Every search that a call sends is for what the call wants, with the query of
/// the call where it has one; and where the site does not have the newer
/// interface, the same search is sent once more, by offset.
pub proof fn every_search_is_for_what_the_call_wants(trace: Trace, n: int)
    requires
        0 <= n <= trace.inputs.len(),
        of_a_file(trace.keep),
        trace.call is IssuesSearch || trace.call is SearchFilter,
        trace.after(n).1 is Call,
        trace.after(n).1->Call_0.method == Method::Post,
    ensures
        exists|jql: Seq<char>, by_token: bool|
            {
                &&& #[trigger] searches_for(
                    trace.keep,
                    trace.creds,
                    trace.call,
                    trace.after(n).1->Call_0,
                    jql,
                    by_token,
                )
                &&& by_token ==> trace.keep.client.api_version == ApiVersion::V3
                &&& trace.call is IssuesSearch ==> jql == trace.call->IssuesSearch_0.jql@
                &&& by_token && n < trace.inputs.len() && not_found(trace.inputs[n].0) ==> {
                    &&& trace.after(n + 1).1 is Call
                    &&& searches_for(
                        trace.keep,
                        trace.creds,
                        trace.call,
                        trace.after(n + 1).1->Call_0,
                        jql,
                        false,
                    )
                }
            },
{
    lemma_run_in_form(trace, n);
    let request = trace.after(n).1->Call_0;
    match trace.after(n).0.stage {
        StageView::Linked { .. } => {
            let key = choose|key: Seq<char>| #[trigger]
                asks_to_classify(trace.keep, trace.creds, request, key);
        },
        StageView::Keys { .. } => {
            let key = choose|key: Seq<char>| #[trigger]
                asks_to_classify(trace.keep, trace.creds, request, key);
        },
        _ => {},
    }
    assert(trace.after(n).0.stage is Search);
    lemma_search_stage(trace, n);
    let stage = trace.after(n).0.stage;
    let by_token = trace.keep.client.api_version == ApiVersion::V3 && !stage->Search_retried;
    assert(searches_for(
        trace.keep,
        trace.creds,
        trace.call,
        request,
        stage->Search_query.jql,
        by_token,
    ));
    if by_token && n < trace.inputs.len() && not_found(trace.inputs[n].0) {
        assert(trace.after(n + 1) == resumed(
            trace.keep,
            trace.after(n).0,
            trace.inputs[n].0,
            trace.inputs[n].1,
        ));
        lemma_search_stage(trace, n + 1);
    }
}

/// The site answered that it does not know the address.
pub open spec fn not_found(event: EventView) -> bool {
    event matches EventView::Document(Err(ErrorView::Status { status, .. })) && status == 404
}

/// Whatever a call asks the site for carries the credentials of the call, as
/// the operator wants them carried.
pub proof fn every_request_is_signed(trace: Trace, n: int)
    requires
        0 <= n <= trace.inputs.len(),
        of_a_file(trace.keep),
        trace.after(n).1 is Call,
    ensures
        signed(trace.keep, trace.creds, trace.after(n).1->Call_0),
{
    lemma_run_in_form(trace, n);
    let request = trace.after(n).1->Call_0;
    match trace.after(n).0.stage {
        StageView::Keys { .. } => {
            let key = choose|key: Seq<char>| #[trigger]
                asks_to_classify(trace.keep, trace.creds, request, key);
        },
        StageView::Linked { .. } => {
            let key = choose|key: Seq<char>| #[trigger]
                asks_to_classify(trace.keep, trace.creds, request, key);
        },
        _ => {},
    }
}

/// A request that a call sends once it has been assessed is the one that the
/// tool is there for: it goes to the issue that the call names, and carries what
/// the call gives, all of it and as it is given.
pub proof fn the_request_carries_what_the_call_gives(trace: Trace, n: int)
    requires
        0 <= n <= trace.inputs.len(),
        of_a_file(trace.keep),
        trace.after(n).0.stage is Main,
    ensures
        trace.after(n).1 matches StepView::Call(request) && serves_the_call(
            trace.keep,
            trace.creds,
            trace.call,
            request,
        ),
{
    lemma_run_in_form(trace, n);
}

/// Only the request that a tool is there for, and a search, bring anything to
/// the site: every other request of a run is a `GET` without a payload.
pub proof fn nothing_else_is_brought_to_the_site(trace: Trace, n: int)
    requires
        0 <= n <= trace.inputs.len(),
        of_a_file(trace.keep),
        trace.after(n).1 is Call,
        trace.after(n).1->Call_0.method != Method::Get || !(trace.after(n).1->Call_0.payload
            is Nothing),
    ensures
        ({
            let request = trace.after(n).1->Call_0;
            ||| serves_the_call(trace.keep, trace.creds, trace.call, request)
            ||| exists|jql: Seq<char>, by_token: bool| #[trigger]
                searches_for(trace.keep, trace.creds, trace.call, request, jql, by_token)
        }),
{
    lemma_run_in_form(trace, n);
    let request = trace.after(n).1->Call_0;
    match trace.after(n).0.stage {
        StageView::Keys { .. } => {
            let key = choose|key: Seq<char>| #[trigger]
                asks_to_classify(trace.keep, trace.creds, request, key);
        },
        StageView::Linked { .. } => {
            let key = choose|key: Seq<char>| #[trigger]
                asks_to_classify(trace.keep, trace.creds, request, key);
        },
        StageView::Search { query, limit, retried } => {
            assert(searches_for(
                trace.keep,
                trace.creds,
                trace.call,
                request,
                query.jql,
                trace.keep.client.api_version == ApiVersion::V3 && !retried,
            ));
        },
        _ => {},
    }
}

} // verus!
