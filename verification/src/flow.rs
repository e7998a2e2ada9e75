//! What the tools do.
//!
//! A call runs in steps: it sends a request, waits for the reply and goes on,
//! until it has an outcome. This module says which step follows which reply;
//! [`crate::run`] takes them.

use vstd::prelude::*;
use vstd::string::*;

use crate::audit::{blank_cell, CellView, Verdict};
use crate::client::{
    adf, changelog_request, comment_request, comments_request, create_request, filter_request,
    get_request, issue_request, link_request, offset_search_request, search_request,
    transition_request, transitions_request, update_request, upload_request, watcher_request,
    ApiVersion, Credentials, QueryView, RequestView, CLASSIFY_FIELDS,
};
use crate::encoding::{base64_bytes, base64_text};
use crate::guard::{
    assessment_of, attachment_limit, denial_text, disclosed, fetch_list, prospective,
    within_limit, MAX_ASSESS_KEYS,
};
use crate::json::{json_pretty, text_array, written, JsonView};
use crate::keyset::{sorted, texts};
use crate::meta::{optional_text, optional_texts, LevelView, MetaView};
use crate::policy::{asks_identity, decide, AccessView, Capability, Operation, PolicyView};
use crate::project::{comment_shown, or_null, projected, ungated_issue};
use crate::reply::{
    account_id_of, attachments_of, change_of, content_address, data_of, document_of,
    download_request, endpoint_missing, filters_of, of_same_origin, server_info_of, url_read,
    watcher_of, ErrorView, ReplyView,
};
use crate::scrub::{redacted, refers_to, scrubbed, scrubbed_key};
use crate::search::{fetch_size, scan_of, window_of, ScanView, WindowView};
use crate::server::{browse_url, server_facts, KeepView};
use crate::text::{numeral, parts, trimmed};
use crate::tools::{CreateIssueParams, DownloadAttachmentParams, ToolCall};

verus! {

// --- the state of a call ----------------------------------------------------

/// The issues of a call for issue details, and how far it got.
#[verifier::ext_equal]
pub struct InfoView {
    pub keys: Seq<Seq<char>>,
    /// What the assessment says of each key.
    pub entries: Seq<Option<(AccessView, JsonView)>>,
    /// The key that comes next.
    pub next: int,
    pub issues: Seq<JsonView>,
    pub restricted: Seq<Seq<char>>,
    /// Keys on whose account a reference was taken out.
    pub scrubbed: Seq<Seq<char>>,
}

/// What waits for the assessment of the keys that it names.
#[verifier::ext_equal]
pub enum PendingView {
    Changelog(JsonView),
    Search(ScanView),
    Issue { info: InfoView, access: AccessView, body: JsonView },
}

/// What a call waits for.
#[verifier::ext_equal]
pub enum StageView {
    /// The account of the credential holder.
    Identity,
    /// The issue of a gate.
    Gate { index: int },
    /// The reply to the request that the tool is there for.
    Main,
    /// A saved filter.
    Filter,
    /// The result of a search.
    Search { query: QueryView, limit: int, retried: bool },
    /// The content of an attachment.
    Download { meta: JsonView },
    /// The issues of a call for issue details, one after the other.
    Keys { keys: Seq<Seq<char>>, replies: Seq<Option<JsonView>> },
    /// The whole body of an issue.
    Full { info: InfoView, access: AccessView, body: JsonView },
    /// The issues that a response names, one after the other.
    Linked { named: Set<Seq<char>>, replies: Seq<Option<JsonView>>, pending: PendingView },
    /// Nothing.
    Done,
}

/// A call.
#[verifier::ext_equal]
pub struct RunView {
    pub call: ToolCall,
    pub creds: Credentials,
    /// Account id of the caller, where the policy asks for it.
    pub caller: Option<Seq<char>>,
    pub cell: CellView,
    pub stage: StageView,
}

/// What a call comes to.
#[verifier::ext_equal]
pub enum OutcomeView {
    Success(JsonView),
    /// An error text for the client.
    Failure(Seq<char>),
    /// A prompt, and the comments that it ends with.
    Prompt { text: Seq<char>, comments: JsonView },
}

impl OutcomeView {
    /// What the client is told, as a text.
    pub open spec fn content(self) -> Seq<char> {
        match self {
            OutcomeView::Success(document) => json_pretty(written(document)),
            OutcomeView::Failure(text) => text,
            OutcomeView::Prompt { text, .. } => text,
        }
    }
}

/// What is next.
#[verifier::ext_equal]
pub enum StepView {
    Call(RequestView),
    Finish(OutcomeView),
}

/// What a reply was read as.
#[verifier::ext_equal]
pub enum EventView {
    Document(Result<JsonView, ErrorView>),
    Change(Result<(), ErrorView>),
    Data(Result<Seq<u8>, ErrorView>),
}

impl EventView {
    /// The document that came.
    pub open spec fn document(self) -> Result<JsonView, ErrorView> {
        match self {
            EventView::Document(r) => r,
            EventView::Change(Err(e)) => Err(e),
            EventView::Data(Err(e)) => Err(e),
            _ => Err(ErrorView::Unexpected),
        }
    }

    /// Whether a change went through.
    pub open spec fn change(self) -> Result<(), ErrorView> {
        match self {
            EventView::Change(r) => r,
            EventView::Document(Err(e)) => Err(e),
            EventView::Data(Err(e)) => Err(e),
            _ => Err(ErrorView::Unexpected),
        }
    }

    /// The bytes that came.
    pub open spec fn data(self) -> Result<Seq<u8>, ErrorView> {
        match self {
            EventView::Data(r) => r,
            EventView::Document(Err(e)) => Err(e),
            EventView::Change(Err(e)) => Err(e),
            _ => Err(ErrorView::Unexpected),
        }
    }
}

/// What a fetch came to: the document, or nothing.
pub open spec fn fetched(outcome: Result<JsonView, ErrorView>) -> Option<JsonView> {
    match outcome {
        Ok(v) => Some(v),
        Err(_) => None,
    }
}

// --- soundness --------------------------------------------------------------

impl InfoView {
    /// There is an assessment for each key.
    pub open spec fn sound(self) -> bool {
        &&& self.entries.len() == self.keys.len()
        &&& 0 <= self.next <= self.keys.len()
    }

    /// There is a key yet to come.
    pub open spec fn waits(self) -> bool {
        self.sound() && self.next < self.keys.len()
    }
}

impl PendingView {
    pub open spec fn sound(self) -> bool {
        self matches PendingView::Issue { info, .. } ==> info.waits()
    }
}

impl RunView {
    /// What a call waits for is still to come: there is such a gate, such a
    /// key.
    pub open spec fn sound(self) -> bool {
        match self.stage {
            StageView::Gate { index } => {
                &&& 0 <= index < gates(self.call).len()
                &&& fetch_list(seq![gates(self.call)[index].0]).len() == 1
            },
            StageView::Keys { keys, replies } => replies.len() < fetch_list(keys).len(),
            StageView::Full { info, .. } => info.waits(),
            StageView::Linked { named, replies, pending } => {
                &&& replies.len() < fetch_list(sorted(named)).len()
                &&& pending.sound()
            },
            _ => true,
        }
    }
}

// --- endings ----------------------------------------------------------------

/// The call sends a request.
pub open spec fn sends(run: RunView, stage: StageView, request: RequestView) -> (
    RunView,
    StepView,
) {
    (RunView { stage, ..run }, StepView::Call(request))
}

/// The call is over.
pub open spec fn ends(run: RunView, outcome: OutcomeView) -> (RunView, StepView) {
    (RunView { stage: StageView::Done, ..run }, StepView::Finish(outcome))
}

/// The call is over with a result.
pub open spec fn succeeds(run: RunView, result: JsonView) -> (RunView, StepView) {
    ends(run, OutcomeView::Success(result))
}

/// The call is over with an error text.
pub open spec fn fails(run: RunView, text: Seq<char>) -> (RunView, StepView) {
    ends(run, OutcomeView::Failure(text))
}

/// The call is over with an error text, and noted as refused.
pub open spec fn refuses(run: RunView, text: Seq<char>) -> (RunView, StepView) {
    fails(
        RunView { cell: CellView { verdict: Some(Verdict::Refused), ..run.cell }, ..run },
        text,
    )
}

/// The call is over with the result of a request, or with an error text that
/// begins with `what`.
pub open spec fn reports(run: RunView, outcome: Result<JsonView, ErrorView>, what: Seq<char>) -> (
    RunView,
    StepView,
) {
    match outcome {
        Ok(v) => succeeds(run, v),
        Err(e) => fails(run, what + e.text()),
    }
}

/// The call is over with `done` where a change went through, or with an error
/// text that begins with `what`.
pub open spec fn confirms(
    run: RunView,
    outcome: Result<(), ErrorView>,
    done: JsonView,
    what: Seq<char>,
) -> (RunView, StepView) {
    match outcome {
        Ok(()) => succeeds(run, done),
        Err(e) => fails(run, what + e.text()),
    }
}

/// `{"ok": true}`.
pub open spec fn ok_document() -> JsonView {
    JsonView::Object(map!["ok"@ => JsonView::Bool(true)])
}

/// `{"ok": true, "key": ..}`.
pub open spec fn ok_for(key: Seq<char>) -> JsonView {
    JsonView::Object(map!["ok"@ => JsonView::Bool(true), "key"@ => JsonView::Text(key)])
}

// --- the beginning ----------------------------------------------------------

/// A call before its first step.
pub open spec fn fresh(call: ToolCall, creds: Credentials) -> RunView {
    RunView { call, creds, caller: None, cell: blank_cell(), stage: StageView::Done }
}

/// The first step of a call.
pub open spec fn begun(keep: KeepView, run: RunView, now: int) -> (RunView, StepView) {
    match run.call {
        ToolCall::McpServerInfo => succeeds(run, server_facts(keep)),
        ToolCall::IssueUrl(p) => succeeds(run, browse_url(keep, p.key@)),
        ToolCall::JiraServerInfo => sends(
            run,
            StageView::Main,
            get_request(keep.client, run.creds, "/serverInfo"@, Seq::empty()),
        ),
        ToolCall::ListFilters => sends(
            run,
            StageView::Main,
            get_request(keep.client, run.creds, "/filter/favourite"@, Seq::empty()),
        ),
        ToolCall::CreateIssue(p) => creates(keep, run, p, now),
        _ => if asks_identity(keep.policy) {
            sends(
                run,
                StageView::Identity,
                get_request(keep.client, run.creds, "/myself"@, Seq::empty()),
            )
        } else {
            identified(keep, run, now)
        },
    }
}

/// The account id of the caller, where the policy asks for it and the lookup
/// came back with one.
pub open spec fn resolved(policy: PolicyView, account_id: Result<Seq<char>, ErrorView>) -> Option<
    Seq<char>,
> {
    match account_id {
        Ok(id) => if asks_identity(policy) {
            Some(id)
        } else {
            None
        },
        Err(_) => None,
    }
}

/// What follows once the caller is known, or is known to be unknown.
pub open spec fn identified(keep: KeepView, run: RunView, now: int) -> (RunView, StepView) {
    match run.call {
        ToolCall::IssueInfo(p) => info_begun(keep, run, cleaned(texts(p.keys@)), now),
        ToolCall::IssuesSearch(p) => searches(
            keep,
            run,
            query_of(p.jql@, page_size(p.max_results), p.next_page_token, p.start_at),
            page_size(p.max_results),
        ),
        ToolCall::SearchFilter(p) => sends(
            run,
            StageView::Filter,
            filter_request(keep.client, run.creds, p.filter_id@),
        ),
        _ => gate_begun(keep, run, 0),
    }
}

// --- gates ------------------------------------------------------------------

/// The issues that a tool touches, each with the capability that it needs
/// there.
pub open spec fn gates(call: ToolCall) -> Seq<(Seq<char>, Capability)> {
    match call {
        ToolCall::IssueComments(p) => seq![(p.key@, Capability::Comments)],
        ToolCall::IssueHistory(p) => seq![(p.key@, Capability::History)],
        ToolCall::ListAttachments(p) => seq![(p.key@, Capability::Attachments)],
        ToolCall::DownloadAttachment(p) => seq![(p.key@, Capability::Attachments)],
        ToolCall::SummarizeIssue(p) => seq![(p.key@, Capability::Comments)],
        ToolCall::AddComment(p) => seq![(p.key@, Capability::Comment)],
        ToolCall::ListTransitions(p) => seq![(p.key@, Capability::Read)],
        ToolCall::TransitionIssue(p) => seq![(p.key@, Capability::Status)],
        ToolCall::AssignIssue(p) => seq![(p.key@, Capability::Assign)],
        ToolCall::UpdateIssueFields(p) => seq![(p.key@, Capability::Fields)],
        ToolCall::AddWatcher(p) => seq![(p.key@, Capability::Watchers)],
        ToolCall::LinkIssues(p) => seq![
            (p.inward_key@, Capability::Links),
            (p.outward_key@, Capability::Summary),
        ],
        ToolCall::AddAttachment(p) => seq![(p.key@, Capability::Attach)],
        _ => Seq::empty(),
    }
}

/// The request that fetches an issue to classify it.
pub open spec fn classify_request(keep: KeepView, run: RunView, key: Seq<char>) -> RequestView {
    issue_request(keep.client, run.creds, key, Some(CLASSIFY_FIELDS@))
}

/// The verdict on a gate, noted.
pub open spec fn gate_noted(
    run: RunView,
    entry: Option<(AccessView, JsonView)>,
    allowed: bool,
) -> RunView {
    let verdict = Some(
        if allowed {
            Verdict::Served
        } else {
            Verdict::Denied
        },
    );
    RunView {
        cell: match entry {
            Some((access, _)) => CellView { verdict, rule: Some(access.rule_name()), ..run.cell },
            None => CellView { verdict, ..run.cell },
        },
        ..run
    }
}

/// The call comes to its next gate and fetches the issue, or it has passed all
/// of them. There is nothing to fetch for a blank key, and that is denied.
pub open spec fn gate_begun(keep: KeepView, run: RunView, index: int) -> (RunView, StepView) {
    if index >= gates(run.call).len() {
        proceeds(keep, run)
    } else {
        let key = gates(run.call)[index].0;
        let wanted = fetch_list(seq![key]);
        if wanted.len() == 0 {
            fails(gate_noted(run, None, false), denial_text(key))
        } else {
            sends(run, StageView::Gate { index }, classify_request(keep, run, wanted[0]))
        }
    }
}

/// The assessment at a gate.
pub open spec fn gate_entry(
    keep: KeepView,
    run: RunView,
    index: int,
    reply: Option<JsonView>,
    now: int,
) -> Option<(AccessView, JsonView)> {
    let key = gates(run.call)[index].0;
    assessment_of(keep.policy, seq![key], seq![reply], run.caller, now, key)
}

/// A gate lets the call pass.
pub open spec fn gate_passed(
    keep: KeepView,
    run: RunView,
    index: int,
    reply: Option<JsonView>,
    now: int,
) -> bool {
    match gate_entry(keep, run, index, reply, now) {
        Some((access, _)) => access.allows(gates(run.call)[index].1),
        None => false,
    }
}

/// The issue of a gate came, or did not.
pub open spec fn gate_decided(
    keep: KeepView,
    run: RunView,
    index: int,
    reply: Option<JsonView>,
    now: int,
) -> (RunView, StepView) {
    let entry = gate_entry(keep, run, index, reply, now);
    let allowed = gate_passed(keep, run, index, reply, now);
    let noted = gate_noted(run, entry, allowed);
    if allowed {
        gate_begun(keep, noted, index + 1)
    } else {
        fails(noted, denial_text(gates(run.call)[index].0))
    }
}

// --- the request of a tool --------------------------------------------------

/// `n`, but no more than `most`.
pub open spec fn capped(n: u32, most: int) -> int {
    if n <= most {
        n as int
    } else {
        most
    }
}

/// The fields that no general field update may set: they are governed by a
/// capability of their own, or by none.
pub open spec fn governed_fields() -> Seq<Seq<char>> {
    seq!["assignee"@, "resolution"@, "parent"@, "security"@, "project"@, "reporter"@]
}

/// The first governed field that an update would set.
pub open spec fn refused_field(fields: Map<Seq<char>, JsonView>) -> Option<Seq<char>> {
    if fields.dom().contains("assignee"@) {
        Some("assignee"@)
    } else if fields.dom().contains("resolution"@) {
        Some("resolution"@)
    } else if fields.dom().contains("parent"@) {
        Some("parent"@)
    } else if fields.dom().contains("security"@) {
        Some("security"@)
    } else if fields.dom().contains("project"@) {
        Some("project"@)
    } else if fields.dom().contains("reporter"@) {
        Some("reporter"@)
    } else {
        None
    }
}

/// The fields of an assignment.
pub open spec fn assignment(account_id: Option<Seq<char>>) -> JsonView {
    JsonView::Object(
        map![
            "assignee"@ => match account_id {
                Some(id) => JsonView::Object(map!["accountId"@ => JsonView::Text(id)]),
                None => JsonView::Null,
            },
        ],
    )
}

/// An upload, given the bytes that its content stands for: the bytes, or why
/// it is refused.
pub open spec fn upload_checked(policy: PolicyView, bytes: Option<Seq<u8>>) -> Result<
    Seq<u8>,
    Seq<char>,
> {
    match bytes {
        None => Err("content_base64 is not valid base64"@),
        Some(data) => if within_limit(policy, Some(data.len() as int)) {
            Ok(data)
        } else {
            Err("attachment exceeds max_attachment_bytes"@)
        },
    }
}

/// What follows once the gates are passed.
pub open spec fn proceeds(keep: KeepView, run: RunView) -> (RunView, StepView) {
    let client = keep.client;
    let creds = run.creds;
    match run.call {
        ToolCall::IssueComments(p) => sends(
            run,
            StageView::Main,
            comments_request(client, creds, p.key@, 0, capped(p.max_results, 100)),
        ),
        ToolCall::IssueHistory(p) => sends(
            run,
            StageView::Main,
            changelog_request(client, creds, p.key@, 0, capped(p.max_results, 100)),
        ),
        ToolCall::ListAttachments(p) => sends(
            run,
            StageView::Main,
            issue_request(client, creds, p.key@, Some("attachment"@)),
        ),
        ToolCall::DownloadAttachment(p) => sends(
            run,
            StageView::Main,
            issue_request(client, creds, p.key@, Some("attachment"@)),
        ),
        ToolCall::SummarizeIssue(p) => sends(
            run,
            StageView::Main,
            comments_request(client, creds, p.key@, 0, 100),
        ),
        ToolCall::AddComment(p) => sends(
            run,
            StageView::Main,
            comment_request(client, creds, p.key@, p.body@, None),
        ),
        ToolCall::ListTransitions(p) => sends(
            run,
            StageView::Main,
            transitions_request(client, creds, p.key@),
        ),
        ToolCall::TransitionIssue(p) => sends(
            run,
            StageView::Main,
            transition_request(
                client,
                creds,
                p.key@,
                p.transition_id@,
                None,
                optional_text(p.comment),
            ),
        ),
        ToolCall::AssignIssue(p) => sends(
            run,
            StageView::Main,
            update_request(client, creds, p.key@, assignment(optional_text(p.account_id))),
        ),
        ToolCall::UpdateIssueFields(p) => match p.fields@ {
            JsonView::Object(fields) => match refused_field(fields) {
                Some(name) => refuses(
                    run,
                    "field \""@ + name + "\" cannot be set through update_issue_fields"@,
                ),
                None => sends(
                    run,
                    StageView::Main,
                    update_request(client, creds, p.key@, p.fields@),
                ),
            },
            _ => refuses(run, "fields must be a JSON object"@),
        },
        ToolCall::AddWatcher(p) => sends(
            run,
            StageView::Main,
            watcher_request(client, creds, p.key@, p.account_id@),
        ),
        ToolCall::LinkIssues(p) => sends(
            run,
            StageView::Main,
            link_request(client, creds, p.link_type@, p.inward_key@, p.outward_key@),
        ),
        ToolCall::AddAttachment(p) => match upload_checked(
            keep.policy,
            base64_bytes(trimmed(p.content_base64@)),
        ) {
            Ok(data) => sends(
                run,
                StageView::Main,
                upload_request(client, creds, p.key@, p.filename@, data),
            ),
            Err(text) => refuses(run, text),
        },
        _ => fails(run, ErrorView::Unexpected.text()),
    }
}

// --- the reply to it --------------------------------------------------------

/// The comments in a reply.
pub open spec fn comments_in(envelope: JsonView) -> Seq<JsonView> {
    match envelope.items_at("comments"@) {
        Some(items) => items,
        None => Seq::empty(),
    }
}

/// The comments in a reply that may be served.
pub open spec fn comments_served(keep: KeepView, envelope: JsonView, opt_in: bool) -> JsonView {
    JsonView::Array(
        comments_in(envelope).filter(
            comment_shown(keep.policy.global.allow_restricted_comments && opt_in),
        ),
    )
}

/// The prompt for a summary, up to the comments.
pub open spec fn prompt_head(key: Seq<char>) -> Seq<char> {
    "You are an expert at summarizing Jira issue comments.\nRules:\n- Structure the summary clearly\n- Mention authors and dates where relevant\n- Do not invent facts not present in the data\n\nIssue: "@
        + key + "\nComments:\n"@
}

/// What is served of a saved filter: its id, name, description, query and the
/// name of its owner. Sharing and subscriptions are not.
pub open spec fn filter_served(filter: JsonView) -> JsonView {
    JsonView::Object(
        map![
            "id"@ => or_null(filter.get("id"@)),
            "name"@ => or_null(filter.get("name"@)),
            "description"@ => or_null(filter.get("description"@)),
            "jql"@ => or_null(filter.get("jql"@)),
            "owner"@ => match filter.get("owner"@) {
                Some(owner) => or_null(owner.get("displayName"@)),
                None => JsonView::Null,
            },
        ],
    )
}

/// What is served of saved filters.
pub open spec fn filters_served(filters: Seq<JsonView>) -> JsonView {
    JsonView::Object(
        map![
            "filters"@ => JsonView::Array(
                Seq::new(filters.len(), |i: int| filter_served(filters[i])),
            ),
        ],
    )
}

/// The reply to the request that the tool is there for.
pub open spec fn concluded(keep: KeepView, run: RunView, event: EventView, now: int) -> (
    RunView,
    StepView,
) {
    let outcome = event.document();
    match run.call {
        ToolCall::JiraServerInfo => reports(
            run,
            server_info_of(keep.client, outcome),
            "failed to fetch server info: "@,
        ),
        ToolCall::ListFilters => match filters_of(outcome) {
            Ok(filters) => succeeds(run, filters_served(filters)),
            Err(e) => fails(run, "failed to list filters: "@ + e.text()),
        },
        ToolCall::CreateIssue(_) => reports(run, outcome, "create_issue failed: "@),
        ToolCall::IssueComments(p) => match outcome {
            Ok(v) => succeeds(
                run,
                JsonView::Object(
                    map![
                        "key"@ => JsonView::Text(p.key@),
                        "comments"@ => comments_served(keep, v, p.include_restricted),
                    ],
                ),
            ),
            Err(_) => fails(run, denial_text(p.key@)),
        },
        ToolCall::SummarizeIssue(p) => match outcome {
            Ok(v) => ends(
                run,
                OutcomeView::Prompt {
                    text: prompt_head(p.key@) + json_pretty(
                        written(comments_served(keep, v, false)),
                    ),
                    comments: comments_served(keep, v, false),
                },
            ),
            Err(_) => fails(run, denial_text(p.key@)),
        },
        ToolCall::IssueHistory(p) => match outcome {
            Ok(v) => linked_fetched(
                keep,
                run,
                changelog_keys(p.key@, v),
                Seq::empty(),
                PendingView::Changelog(v),
                now,
            ),
            Err(_) => fails(run, denial_text(p.key@)),
        },
        ToolCall::ListAttachments(p) => match attachments_of(outcome) {
            Ok(items) => succeeds(
                run,
                JsonView::Object(
                    map![
                        "key"@ => JsonView::Text(p.key@),
                        "attachments"@ => JsonView::Array(items),
                    ],
                ),
            ),
            Err(_) => fails(run, denial_text(p.key@)),
        },
        ToolCall::DownloadAttachment(p) => match attachments_of(outcome) {
            Ok(items) => downloads(keep, run, p, items),
            Err(_) => fails(run, denial_text(p.key@)),
        },
        ToolCall::AddComment(_) => reports(run, outcome, "add_comment failed: "@),
        ToolCall::ListTransitions(p) => match outcome {
            Ok(v) => succeeds(run, v),
            Err(_) => fails(run, denial_text(p.key@)),
        },
        ToolCall::TransitionIssue(p) => confirms(
            run,
            event.change(),
            ok_for(p.key@),
            "transition failed: "@,
        ),
        ToolCall::AssignIssue(p) => confirms(
            run,
            event.change(),
            ok_for(p.key@),
            "assign failed: "@,
        ),
        ToolCall::UpdateIssueFields(p) => confirms(
            run,
            event.change(),
            ok_for(p.key@),
            "update failed: "@,
        ),
        ToolCall::AddWatcher(_) => confirms(
            run,
            event.change(),
            ok_document(),
            "add_watcher failed: "@,
        ),
        ToolCall::LinkIssues(_) => confirms(run, event.change(), ok_document(), "link failed: "@),
        ToolCall::AddAttachment(_) => reports(run, outcome, "add_attachment failed: "@),
        _ => fails(run, ErrorView::Unexpected.text()),
    }
}

// --- filing an issue --------------------------------------------------------

/// The metadata of an issue to be filed. What the call does not tell is
/// unknown.
pub open spec fn creation_meta(policy: PolicyView, p: CreateIssueParams) -> MetaView {
    MetaView {
        project: Some(p.project_key@),
        summary: Some(p.summary@),
        status: None,
        priority: optional_text(p.priority),
        issue_type: Some(p.issue_type@),
        labels: optional_texts(p.labels),
        components: optional_texts(p.components),
        security: LevelView::Unreadable,
        created: None,
        created_by_me: Some(true),
        public_projects: policy.global.public_projects,
    }
}

/// `{"name": ..}`.
pub open spec fn named(name: Seq<char>) -> JsonView {
    JsonView::Object(map!["name"@ => JsonView::Text(name)])
}

/// The fields of an issue to be filed.
pub open spec fn creation_fields(p: CreateIssueParams) -> JsonView {
    let base = map![
        "project"@ => JsonView::Object(map!["key"@ => JsonView::Text(p.project_key@)]),
        "summary"@ => JsonView::Text(p.summary@),
        "issuetype"@ => named(p.issue_type@),
    ];
    let described = match p.description {
        Some(text) => base.insert("description"@, adf(text@)),
        None => base,
    };
    let labelled = match optional_texts(p.labels) {
        Some(list) => described.insert("labels"@, text_array(list)),
        None => described,
    };
    let placed = match optional_texts(p.components) {
        Some(list) => labelled.insert(
            "components"@,
            JsonView::Array(Seq::new(list.len(), |i: int| named(list[i]))),
        ),
        None => labelled,
    };
    JsonView::Object(
        match p.priority {
            Some(name) => placed.insert("priority"@, named(name@)),
            None => placed,
        },
    )
}

/// The policy lets the caller file the issue.
pub open spec fn creation_allowed(keep: KeepView, p: CreateIssueParams, now: int) -> bool {
    decide(
        keep.policy,
        prospective(keep.policy, creation_meta(keep.policy, p)),
        now,
        Operation::Create,
    ).allows(Capability::Create)
}

/// Filing an issue.
pub open spec fn creates(keep: KeepView, run: RunView, p: CreateIssueParams, now: int) -> (
    RunView,
    StepView,
) {
    if creation_allowed(keep, p, now) {
        sends(
            run,
            StageView::Main,
            create_request(keep.client, run.creds, creation_fields(p)),
        )
    } else {
        refuses(
            run,
            "Issue create in project "@ + p.project_key@ + " is not permitted by policy"@,
        )
    }
}

// --- attachments ------------------------------------------------------------

/// Attachment metadata with that id, which is a text or a number.
pub open spec fn has_id(meta: JsonView, id: Seq<char>) -> bool {
    match meta.get("id"@) {
        Some(JsonView::Text(s)) => s == id,
        Some(JsonView::Unsigned(n)) => numeral(n) == id,
        _ => false,
    }
}

/// The first attachment with that id.
pub open spec fn attachment_with(items: Seq<JsonView>, id: Seq<char>) -> Option<JsonView>
    decreases items.len(),
{
    if items.len() == 0 {
        None
    } else if has_id(items[0], id) {
        Some(items[0])
    } else {
        attachment_with(items.drop_first(), id)
    }
}

/// The size that attachment metadata tells.
pub open spec fn told_size(meta: JsonView) -> Option<int> {
    match meta.get("size"@) {
        Some(v) => match v.unsigned() {
            Some(n) => Some(n as int),
            None => None,
        },
        None => None,
    }
}

/// The text for an attachment over the limit, or of unknown size under one.
pub open spec fn too_large_text(size: Option<int>) -> Seq<char> {
    match size {
        Some(n) => "attachment exceeds max_attachment_bytes ("@ + numeral(n as nat) + " bytes)"@,
        None => "attachment exceeds max_attachment_bytes (size unknown)"@,
    }
}

/// The limit on a download.
pub open spec fn download_limit(policy: PolicyView) -> Option<u64> {
    match attachment_limit(policy) {
        Some(n) => Some(n as u64),
        None => None,
    }
}

/// A download, given the attachments of the issue.
pub open spec fn downloads(
    keep: KeepView,
    run: RunView,
    p: DownloadAttachmentParams,
    items: Seq<JsonView>,
) -> (RunView, StepView) {
    match attachment_with(items, p.attachment_id@) {
        None => fails(run, denial_text(p.key@)),
        Some(meta) => if !within_limit(keep.policy, told_size(meta)) {
            refuses(run, too_large_text(told_size(meta)))
        } else {
            match meta.text_at("content"@) {
                None => fails(run, "attachment has no content URL"@),
                Some(url) => match of_same_origin(
                    url_read(keep.client.base_url),
                    url_read(content_address(keep.client.base_url, url)),
                ) {
                    Some(target) => sends(
                        run,
                        StageView::Download { meta },
                        download_request(
                            keep.client,
                            run.creds,
                            target,
                            download_limit(keep.policy),
                        ),
                    ),
                    None => fails(
                        run,
                        "download failed: "@ + ErrorView::DownloadRefused.text(),
                    ),
                },
            }
        },
    }
}

/// What is served of a download.
pub open spec fn download_result(
    p: DownloadAttachmentParams,
    meta: JsonView,
    size: nat,
    encoded: Seq<char>,
) -> JsonView {
    JsonView::Object(
        map![
            "key"@ => JsonView::Text(p.key@),
            "attachment_id"@ => JsonView::Text(p.attachment_id@),
            "filename"@ => or_null(meta.get("filename"@)),
            "size"@ => JsonView::Unsigned(size),
            "content_base64"@ => JsonView::Text(encoded),
        ],
    )
}

/// The content of an attachment came.
pub open spec fn downloaded(run: RunView, meta: JsonView, outcome: Result<Seq<u8>, ErrorView>) -> (
    RunView,
    StepView,
) {
    match run.call {
        ToolCall::DownloadAttachment(p) => match outcome {
            Ok(bytes) => succeeds(
                run,
                download_result(p, meta, bytes.len(), base64_text(bytes)),
            ),
            Err(e) => fails(run, "download failed: "@ + e.text()),
        },
        _ => fails(run, ErrorView::Unexpected.text()),
    }
}

// --- searching --------------------------------------------------------------

/// The number of issues on a page.
pub open spec fn page_size(max_results: u32) -> int {
    capped(max_results, 50)
}

/// The query of a search.
pub open spec fn query_of(
    jql: Seq<char>,
    limit: int,
    token: Option<String>,
    start_at: Option<u32>,
) -> QueryView {
    QueryView {
        jql,
        fields: parts(CLASSIFY_FIELDS@, ','),
        max_results: fetch_size(limit),
        next_page_token: optional_text(token),
        start_at,
    }
}

/// The call searches.
pub open spec fn searches(keep: KeepView, run: RunView, query: QueryView, limit: int) -> (
    RunView,
    StepView,
) {
    sends(
        run,
        StageView::Search { query, limit, retried: false },
        search_request(keep.client, run.creds, query),
    )
}

/// A saved filter came.
pub open spec fn filter_found(keep: KeepView, run: RunView, outcome: Result<JsonView, ErrorView>) -> (
    RunView,
    StepView,
) {
    match (run.call, outcome) {
        (ToolCall::SearchFilter(p), Ok(filter)) => match filter.text_at("jql"@) {
            Some(jql) => searches(
                keep,
                run,
                query_of(jql, page_size(p.max_results), p.next_page_token, p.start_at),
                page_size(p.max_results),
            ),
            None => fails(run, "filter has no JQL"@),
        },
        (ToolCall::SearchFilter(_), Err(e)) => fails(run, "filter lookup failed: "@ + e.text()),
        _ => fails(run, ErrorView::Unexpected.text()),
    }
}

/// The result of a search came.
pub open spec fn search_found(
    keep: KeepView,
    run: RunView,
    query: QueryView,
    limit: int,
    retried: bool,
    outcome: Result<JsonView, ErrorView>,
    now: int,
) -> (RunView, StepView) {
    if keep.client.api_version == ApiVersion::V3 && !retried && endpoint_missing(outcome) {
        sends(
            run,
            StageView::Search { query, limit, retried: true },
            offset_search_request(keep.client, run.creds, query),
        )
    } else {
        match outcome {
            Err(e) => fails(run, "search failed: "@ + e.text()),
            Ok(envelope) => {
                let scan = scan_of(keep.policy, envelope, limit, run.caller, now);
                linked_fetched(
                    keep,
                    run,
                    scan.candidates,
                    Seq::empty(),
                    PendingView::Search(scan),
                    now,
                )
            },
        }
    }
}

/// What is noted of a search.
pub open spec fn search_noted(cell: CellView, window: WindowView) -> CellView {
    CellView {
        verdict: Some(Verdict::Filtered),
        suppressed: cell.suppressed + window.dropped_keys + window.scrubbed_keys,
        suppressed_count: Some(window.dropped_keys.len() as u64),
        scan: Some((window.scanned as u64, window.dropped_keys.len() as u64)),
        ..cell
    }
}

/// What the client sees of a search: the issues and the token of the next
/// page.
pub open spec fn search_result(window: WindowView) -> JsonView {
    JsonView::Object(
        map![
            "issues"@ => JsonView::Array(window.issues),
            "nextPageToken"@ => match window.next_page_token {
                Some(token) => JsonView::Text(token),
                None => JsonView::Null,
            },
        ],
    )
}

// --- keys that a response names ---------------------------------------------

/// The values of a change, one of which is `value`.
pub open spec fn change_holds(change: JsonView, value: Seq<char>) -> bool {
    ||| change.text_at("fromString"@) == Some(value)
    ||| change.text_at("toString"@) == Some(value)
    ||| change.text_at("from"@) == Some(value)
    ||| change.text_at("to"@) == Some(value)
}

/// A list of changes holds `value`.
pub open spec fn changes_hold(changes: Seq<JsonView>, value: Seq<char>) -> bool {
    exists|i: int| 0 <= i < changes.len() && change_holds(#[trigger] changes[i], value)
}

/// The changes of an entry of a changelog.
pub open spec fn changes_of(entry: JsonView) -> Seq<JsonView> {
    match entry.items_at("items"@) {
        Some(items) => items,
        None => Seq::empty(),
    }
}

/// A list of entries of a changelog holds `value`.
pub open spec fn entries_hold(entries: Seq<JsonView>, value: Seq<char>) -> bool {
    exists|i: int| 0 <= i < entries.len() && changes_hold(changes_of(#[trigger] entries[i]), value)
}

/// The entries under a member of a changelog; none where it is no list.
pub open spec fn entries_at(changelog: JsonView, name: Seq<char>) -> Seq<JsonView> {
    match changelog.items_at(name) {
        Some(items) => items,
        None => Seq::empty(),
    }
}

/// The entries of a changelog: under `values`, or where there is no such
/// member, under `histories`. Where both are lists, both hold entries; where
/// `values` is there and is no list, no entry is read.
pub open spec fn changelog_entries(changelog: JsonView) -> Seq<JsonView> {
    match changelog.get("values"@) {
        Some(v) => match v.items() {
            Some(items) => items + entries_at(changelog, "histories"@),
            None => Seq::empty(),
        },
        None => entries_at(changelog, "histories"@),
    }
}

/// The keys that a changelog may name: that of the issue, and every value with
/// a hyphen.
pub open spec fn changelog_keys(key: Seq<char>, changelog: JsonView) -> Set<Seq<char>> {
    Set::new(
        |k: Seq<char>|
            k == key || (k.contains('-') && entries_hold(changelog_entries(changelog), k)),
    )
}

/// The call fetches the issues that a response names, one after the other, to
/// classify them.
pub open spec fn linked_fetched(
    keep: KeepView,
    run: RunView,
    named: Set<Seq<char>>,
    replies: Seq<Option<JsonView>>,
    pending: PendingView,
    now: int,
) -> (RunView, StepView) {
    let wanted = fetch_list(sorted(named));
    if replies.len() < wanted.len() {
        sends(
            run,
            StageView::Linked { named, replies, pending },
            classify_request(keep, run, wanted[replies.len() as int]),
        )
    } else {
        linked_done(keep, run, named, replies, pending, now)
    }
}

/// The keys that may be disclosed.
pub open spec fn disclosed_keys(
    policy: PolicyView,
    keys: Set<Seq<char>>,
    replies: Seq<Option<JsonView>>,
    caller: Option<Seq<char>>,
    now: int,
) -> Set<Seq<char>> {
    Set::new(|k: Seq<char>| disclosed(policy, sorted(keys), replies, caller, now, k))
}

/// All of the issues came, or did not: what waited for them is served without
/// the keys that may not be disclosed.
pub open spec fn linked_done(
    keep: KeepView,
    run: RunView,
    keys: Set<Seq<char>>,
    replies: Seq<Option<JsonView>>,
    pending: PendingView,
    now: int,
) -> (RunView, StepView) {
    let disclosable = disclosed_keys(keep.policy, keys, replies, run.caller, now);
    match pending {
        PendingView::Changelog(changelog) => succeeds(run, redacted(changelog, disclosable)),
        PendingView::Search(scan) => {
            let window = window_of(keep.policy, scan, disclosable);
            succeeds(
                RunView { cell: search_noted(run.cell, window), ..run },
                search_result(window),
            )
        },
        PendingView::Issue { info, access, body } => {
            let custom = keep.policy.global.link_custom_fields;
            info_goes_on(
                keep,
                RunView { cell: served_noted(run.cell, access), ..run },
                InfoView {
                    next: info.next + 1,
                    issues: info.issues.push(scrubbed(body, custom, disclosable)),
                    scrubbed: info.scrubbed + sorted(
                        Set::new(|k: Seq<char>| scrubbed_key(body, custom, disclosable, k)),
                    ),
                    ..info
                },
            )
        },
    }
}

// --- issue details ----------------------------------------------------------

/// The keys of a call for issue details: trimmed, without blank ones.
pub open spec fn cleaned(keys: Seq<Seq<char>>) -> Seq<Seq<char>>
    decreases keys.len(),
{
    if keys.len() == 0 {
        Seq::empty()
    } else {
        let earlier = cleaned(keys.drop_last());
        let key = trimmed(keys.last());
        if key.len() == 0 {
            earlier
        } else {
            earlier.push(key)
        }
    }
}

/// A served issue, noted.
pub open spec fn served_noted(cell: CellView, access: AccessView) -> CellView {
    CellView { verdict: Some(Verdict::Served), rule: Some(access.rule_name()), ..cell }
}

/// A call for issue details fetches the issues, one after the other.
pub open spec fn info_begun(keep: KeepView, run: RunView, keys: Seq<Seq<char>>, now: int) -> (
    RunView,
    StepView,
) {
    if keys.len() > MAX_ASSESS_KEYS {
        refuses(run, "at most 25 issue keys per call"@)
    } else {
        info_fetched(keep, run, keys, Seq::empty(), now)
    }
}

/// The next of the issues is fetched, or all of them came.
pub open spec fn info_fetched(
    keep: KeepView,
    run: RunView,
    keys: Seq<Seq<char>>,
    replies: Seq<Option<JsonView>>,
    now: int,
) -> (RunView, StepView) {
    let wanted = fetch_list(keys);
    if replies.len() < wanted.len() {
        sends(
            run,
            StageView::Keys { keys, replies },
            classify_request(keep, run, wanted[replies.len() as int]),
        )
    } else {
        info_goes_on(
            keep,
            run,
            InfoView {
                keys,
                entries: Seq::new(
                    keys.len(),
                    |i: int|
                        assessment_of(keep.policy, keys, replies, run.caller, now, keys[i]),
                ),
                next: 0,
                issues: Seq::empty(),
                restricted: Seq::empty(),
                scrubbed: Seq::empty(),
            },
        )
    }
}

/// The next key, and those after it: an issue that may be read is fetched
/// whole; of one whose summary is visible the summary is served; any other is
/// restricted.
pub open spec fn info_goes_on(keep: KeepView, run: RunView, info: InfoView) -> (RunView, StepView)
    decreases info.keys.len() - info.next,
{
    if info.next >= info.keys.len() || info.next < 0 {
        info_ended(run, info)
    } else {
        let key = info.keys[info.next];
        let skipped = InfoView {
            next: info.next + 1,
            restricted: info.restricted.push(key),
            ..info
        };
        match info.entries[info.next] {
            Some((access, body)) => if body is Null {
                info_goes_on(keep, run, skipped)
            } else if access.allows(Capability::Read) {
                sends(
                    run,
                    StageView::Full { info, access, body },
                    issue_request(keep.client, run.creds, key, None),
                )
            } else {
                match projected(access, body) {
                    Some(summary) => info_goes_on(
                        keep,
                        RunView { cell: served_noted(run.cell, access), ..run },
                        InfoView {
                            next: info.next + 1,
                            issues: info.issues.push(summary),
                            ..info
                        },
                    ),
                    None => info_goes_on(keep, run, skipped),
                }
            },
            None => info_goes_on(keep, run, skipped),
        }
    }
}

/// The keys that an issue names, and its own.
pub open spec fn issue_keys(policy: PolicyView, key: Seq<char>, body: JsonView) -> Set<Seq<char>> {
    Set::new(|k: Seq<char>| k == key || refers_to(body, policy.global.link_custom_fields, k))
}

/// The whole body of an issue came; where it did not, the one it was
/// classified by stands in.
pub open spec fn full_found(
    keep: KeepView,
    run: RunView,
    info: InfoView,
    access: AccessView,
    body: JsonView,
    outcome: Result<JsonView, ErrorView>,
    now: int,
) -> (RunView, StepView) {
    let full = ungated_issue(
        access,
        match outcome {
            Ok(v) => v,
            Err(_) => body,
        },
    );
    linked_fetched(
        keep,
        run,
        issue_keys(keep.policy, info.keys[info.next], full),
        Seq::empty(),
        PendingView::Issue { info, access, body: full },
        now,
    )
}

/// What is noted of issue details.
pub open spec fn info_noted(cell: CellView, info: InfoView) -> CellView {
    CellView {
        suppressed: cell.suppressed + info.restricted + info.scrubbed,
        suppressed_count: if info.restricted.len() > 0 {
            Some(info.restricted.len() as u64)
        } else {
            cell.suppressed_count
        },
        ..cell
    }
}

/// The call for issue details is over.
pub open spec fn info_ended(run: RunView, info: InfoView) -> (RunView, StepView) {
    succeeds(
        RunView { cell: info_noted(run.cell, info), ..run },
        JsonView::Object(
            map![
                "issues"@ => JsonView::Array(info.issues),
                "restricted"@ => text_array(info.restricted),
            ],
        ),
    )
}

// --- the next step ----------------------------------------------------------

/// What a reply is read as: that depends on what the call waits for.
pub open spec fn event_of(run: RunView, reply: ReplyView) -> EventView {
    match run.stage {
        StageView::Download { .. } => EventView::Data(data_of(reply)),
        StageView::Main => match run.call {
            ToolCall::TransitionIssue(_) => EventView::Change(change_of(reply)),
            ToolCall::AssignIssue(_) => EventView::Change(change_of(reply)),
            ToolCall::UpdateIssueFields(_) => EventView::Change(change_of(reply)),
            ToolCall::LinkIssues(_) => EventView::Change(change_of(reply)),
            ToolCall::AddWatcher(_) => EventView::Change(watcher_of(reply)),
            _ => EventView::Document(document_of(reply)),
        },
        _ => EventView::Document(document_of(reply)),
    }
}

/// What follows a reply.
pub open spec fn resumed(keep: KeepView, run: RunView, event: EventView, now: int) -> (
    RunView,
    StepView,
) {
    let idle = RunView { stage: StageView::Done, ..run };
    match run.stage {
        StageView::Identity => identified(
            keep,
            RunView {
                caller: resolved(keep.policy, account_id_of(event.document())),
                ..idle
            },
            now,
        ),
        StageView::Gate { index } => gate_decided(
            keep,
            idle,
            index,
            fetched(event.document()),
            now,
        ),
        StageView::Main => concluded(keep, idle, event, now),
        StageView::Filter => filter_found(keep, idle, event.document()),
        StageView::Search { query, limit, retried } => search_found(
            keep,
            idle,
            query,
            limit,
            retried,
            event.document(),
            now,
        ),
        StageView::Download { meta } => downloaded(idle, meta, event.data()),
        StageView::Keys { keys, replies } => info_fetched(
            keep,
            idle,
            keys,
            replies.push(fetched(event.document())),
            now,
        ),
        StageView::Full { info, access, body } => full_found(
            keep,
            idle,
            info,
            access,
            body,
            event.document(),
            now,
        ),
        StageView::Linked { named, replies, pending } => linked_fetched(
            keep,
            idle,
            named,
            replies.push(fetched(event.document())),
            pending,
            now,
        ),
        StageView::Done => fails(idle, ErrorView::Unexpected.text()),
    }
}

/// A whole run: the call starts at the time `start` and goes on with each input
/// at its time.
pub struct Trace {
    pub keep: KeepView,
    pub call: ToolCall,
    pub creds: Credentials,
    pub start: int,
    pub inputs: Seq<(EventView, int)>,
}

impl Trace {
    /// Where the call stands after its first `n` inputs, and its step.
    pub open spec fn after(self, n: int) -> (RunView, StepView)
        decreases n,
    {
        if n <= 0 {
            begun(self.keep, fresh(self.call, self.creds), self.start)
        } else {
            let (event, now) = self.inputs[n - 1];
            resumed(self.keep, self.after(n - 1).0, event, now)
        }
    }

    /// The time after the first `n` inputs.
    pub open spec fn time(self, n: int) -> int {
        if n <= 0 {
            self.start
        } else {
            self.inputs[n - 1].1
        }
    }

    /// The document that input `j` brings, if any.
    pub open spec fn document(self, j: int) -> Option<JsonView> {
        fetched(self.inputs[j].0.document())
    }

    /// The documents that `n` inputs bring, from input `from` on.
    pub open spec fn documents(self, from: int, n: int) -> Seq<Option<JsonView>> {
        Seq::new(n as nat, |m: int| self.document(from + m))
    }
}

} // verus!
