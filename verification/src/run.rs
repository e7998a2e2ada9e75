//! Runs the tools, step by step.
//!
//! [`JiraKeep::start`] takes the first step of a call and [`JiraKeep::resume`]
//! each further one, with the reply to the request of the step before. What
//! the steps are is told in [`crate::flow`].

use vstd::prelude::*;
use vstd::string::*;

use crate::audit::{AuditCell, Verdict};
use crate::client::{plain_to_adf, Credentials, JiraClient, Request, SearchQuery, CLASSIFY_FIELDS};
use crate::encoding::{decode_base64, encode_base64};
use crate::flow::{
    assignment, attachment_with, begun, capped, change_holds, changelog_entries, changelog_keys,
    changes_hold, changes_of, cleaned, comments_served, concluded, creates, creation_fields,
    creation_meta, disclosed_keys, download_result, downloaded, downloads, entries_at, entries_hold,
    event_of, fetched, filter_found, filter_served, filters_served, fresh, full_found,
    gate_begun, gate_decided, gate_noted, gates, has_id, identified, info_begun, info_ended,
    info_fetched, info_goes_on, issue_keys, linked_done, linked_fetched, named, ok_document,
    ok_for, page_size, prompt_head, query_of, refused_field, resumed, search_found,
    search_noted, search_result, searches, served_noted, told_size, too_large_text,
    upload_checked, EventView, InfoView, OutcomeView, PendingView, RunView, StageView, StepView,
};
use crate::guard::{
    assessment_in, assessment_of, distinct_keys, fetch_list, optional_json, optional_size,
    replies_view, Guard, MAX_ASSESS_KEYS,
};
use crate::json::{items_view, Json, JsonView, Members};
use crate::keymap::KeyMap;
use crate::keyset::{lemma_sorted, sorted, texts, KeySet};
use crate::meta::{
    copy_optional_texts, copy_text, copy_texts, optional_str, optional_text, IssueMeta,
    SecurityLevel,
};
use crate::policy::{Access, AccessView, Capability, Policy};
use crate::project::member_or_null;
use crate::reply::{copy_items, data_view, document_view, done_view, ClientError, Reply};
use crate::scrub::scrubbed_key;
use crate::search::{SearchScan, SearchWindow};
use crate::server::JiraKeep;
use crate::text::{concat, concat3, contains_char, decimal, parts, same_text, split, trim};
use crate::tools::{CreateIssueParams, DownloadAttachmentParams, Tool, ToolCall};

verus! {

// --- the state of a call ----------------------------------------------------

/// The issues of a call for issue details, and how far it got.
struct Info {
    keys: Vec<String>,
    entries: Vec<Option<(Access, Json)>>,
    next: usize,
    issues: Vec<Json>,
    restricted: Vec<String>,
    scrubbed: Vec<String>,
}

/// What an assessment says of a key.
spec fn entry_view(entry: Option<(Access, Json)>) -> Option<(AccessView, JsonView)> {
    match entry {
        Some((access, body)) => Some((access@, body@)),
        None => None,
    }
}

/// What an assessment says of each key.
spec fn entries_view(entries: Seq<Option<(Access, Json)>>) -> Seq<
    Option<(AccessView, JsonView)>,
> {
    Seq::new(entries.len(), |i: int| entry_view(entries[i]))
}

impl View for Info {
    type V = InfoView;

    closed spec fn view(&self) -> InfoView {
        InfoView {
            keys: texts(self.keys@),
            entries: entries_view(self.entries@),
            next: self.next as int,
            issues: items_view(self.issues@),
            restricted: texts(self.restricted@),
            scrubbed: texts(self.scrubbed@),
        }
    }
}

/// What waits for the assessment of the keys that it names.
enum Pending {
    Changelog(Json),
    Search(SearchScan),
    Issue { info: Info, access: Access, body: Json },
}

impl View for Pending {
    type V = PendingView;

    closed spec fn view(&self) -> PendingView {
        match self {
            Pending::Changelog(v) => PendingView::Changelog(v@),
            Pending::Search(scan) => PendingView::Search(scan@),
            Pending::Issue { info, access, body } => PendingView::Issue {
                info: info@,
                access: access@,
                body: body@,
            },
        }
    }
}

/// What a call waits for.
enum Stage {
    Identity,
    Gate { index: usize },
    Main,
    Filter,
    Search { query: SearchQuery, limit: u32, retried: bool },
    Download { meta: Json },
    Keys { keys: Vec<String>, replies: Vec<Option<Json>> },
    Full { info: Info, access: Access, body: Json },
    Linked { named: KeySet, replies: Vec<Option<Json>>, pending: Pending },
    Done,
}

impl View for Stage {
    type V = StageView;

    closed spec fn view(&self) -> StageView {
        match self {
            Stage::Identity => StageView::Identity,
            Stage::Gate { index } => StageView::Gate { index: *index as int },
            Stage::Main => StageView::Main,
            Stage::Filter => StageView::Filter,
            Stage::Search { query, limit, retried } => StageView::Search {
                query: query@,
                limit: *limit as int,
                retried: *retried,
            },
            Stage::Download { meta } => StageView::Download { meta: meta@ },
            Stage::Keys { keys, replies } => StageView::Keys {
                keys: texts(keys@),
                replies: replies_view(replies@),
            },
            Stage::Full { info, access, body } => StageView::Full {
                info: info@,
                access: access@,
                body: body@,
            },
            Stage::Linked { named, replies, pending } => StageView::Linked {
                named: named@,
                replies: replies_view(replies@),
                pending: pending@,
            },
            Stage::Done => StageView::Done,
        }
    }
}

/// A call, whatever it waits for.
struct Work {
    call: ToolCall,
    creds: Credentials,
    caller: Option<String>,
    cell: AuditCell,
}

impl View for Work {
    type V = RunView;

    closed spec fn view(&self) -> RunView {
        RunView {
            call: self.call,
            creds: self.creds,
            caller: optional_text(self.caller),
            cell: self.cell@,
            stage: StageView::Done,
        }
    }
}

/// A tool call on its way.
pub struct Run {
    work: Work,
    stage: Stage,
}

impl View for Run {
    type V = RunView;

    closed spec fn view(&self) -> RunView {
        RunView { stage: self.stage@, ..self.work@ }
    }
}

impl Run {
    #[verifier::type_invariant]
    spec fn consistent(&self) -> bool {
        self@.sound()
    }

    /// What is noted of the call for the audit log.
    pub fn cell(&self) -> (res: &AuditCell)
        ensures
            res@ == self@.cell,
    {
        &self.work.cell
    }

    /// The tool that is called.
    pub fn tool(&self) -> (res: Tool)
        ensures
            res == self@.call.tool_of(),
    {
        self.work.call.tool()
    }
}

/// What a call comes to.
pub enum Outcome {
    Success(Json),
    /// An error text for the client.
    Failure(String),
    /// A prompt, and the comments that it ends with.
    Prompt { text: String, comments: Json },
}

impl Outcome {
    /// What the client is told, as a text.
    pub fn content(&self) -> (res: String)
        ensures
            res@ == self@.content(),
    {
        match self {
            Outcome::Success(document) => document.pretty(),
            Outcome::Failure(text) => text.clone(),
            Outcome::Prompt { text, .. } => text.clone(),
        }
    }

    /// Whether the client is told of an error.
    pub fn is_error(&self) -> (res: bool)
        ensures
            res == (self@ is Failure),
    {
        matches!(self, Outcome::Failure(_))
    }
}

impl View for Outcome {
    type V = OutcomeView;

    open spec fn view(&self) -> OutcomeView {
        match self {
            Outcome::Success(v) => OutcomeView::Success(v@),
            Outcome::Failure(text) => OutcomeView::Failure(text@),
            Outcome::Prompt { text, comments } => OutcomeView::Prompt {
                text: text@,
                comments: comments@,
            },
        }
    }
}

/// What is next.
pub enum Step {
    /// Send the request, and resume with the reply.
    Call(Request),
    Finish(Outcome),
}

impl View for Step {
    type V = StepView;

    open spec fn view(&self) -> StepView {
        match self {
            Step::Call(request) => StepView::Call(request@),
            Step::Finish(outcome) => StepView::Finish(outcome@),
        }
    }
}

/// What a reply was read as.
pub enum Event {
    Document(Result<Json, ClientError>),
    Change(Result<(), ClientError>),
    Data(Result<Vec<u8>, ClientError>),
}

impl View for Event {
    type V = EventView;

    open spec fn view(&self) -> EventView {
        match self {
            Event::Document(r) => EventView::Document(document_view(*r)),
            Event::Change(r) => EventView::Change(done_view(*r)),
            Event::Data(r) => EventView::Data(data_view(*r)),
        }
    }
}

impl Event {
    /// The document that came.
    pub fn into_document(self) -> (res: Result<Json, ClientError>)
        ensures
            document_view(res) == self@.document(),
    {
        match self {
            Event::Document(r) => r,
            Event::Change(Err(e)) => Err(e),
            Event::Data(Err(e)) => Err(e),
            _ => Err(ClientError::Unexpected),
        }
    }

    /// Whether a change went through.
    pub fn into_change(self) -> (res: Result<(), ClientError>)
        ensures
            done_view(res) == self@.change(),
    {
        match self {
            Event::Change(r) => r,
            Event::Document(Err(e)) => Err(e),
            Event::Data(Err(e)) => Err(e),
            _ => Err(ClientError::Unexpected),
        }
    }

    /// The bytes that came.
    pub fn into_data(self) -> (res: Result<Vec<u8>, ClientError>)
        ensures
            data_view(res) == self@.data(),
    {
        match self {
            Event::Data(r) => r,
            Event::Document(Err(e)) => Err(e),
            Event::Change(Err(e)) => Err(e),
            _ => Err(ClientError::Unexpected),
        }
    }
}

// --- endings ----------------------------------------------------------------

impl Work {
    /// The caller, borrowed.
    fn caller(&self) -> (res: Option<&str>)
        ensures
            optional_str(res) == self@.caller,
    {
        match &self.caller {
            Some(id) => Some(id.as_str()),
            None => None,
        }
    }

    /// The call sends a request.
    fn sends(self, stage: Stage, request: Request) -> (res: (Run, Step))
        requires
            (RunView { stage: stage@, ..self@ }).sound(),
        ensures
            (res.0@, res.1@) == crate::flow::sends(self@, stage@, request@),
    {
        (Run { work: self, stage }, Step::Call(request))
    }

    /// The call is over.
    fn ends(self, outcome: Outcome) -> (res: (Run, Step))
        ensures
            (res.0@, res.1@) == crate::flow::ends(self@, outcome@),
    {
        (Run { work: self, stage: Stage::Done }, Step::Finish(outcome))
    }

    /// The call is over with a result.
    fn succeeds(self, result: Json) -> (res: (Run, Step))
        ensures
            (res.0@, res.1@) == crate::flow::succeeds(self@, result@),
    {
        self.ends(Outcome::Success(result))
    }

    /// The call is over with an error text.
    fn fails(self, text: String) -> (res: (Run, Step))
        ensures
            (res.0@, res.1@) == crate::flow::fails(self@, text@),
    {
        self.ends(Outcome::Failure(text))
    }

    /// The call is over with an error text, and noted as refused.
    fn refuses(self, text: String) -> (res: (Run, Step))
        ensures
            (res.0@, res.1@) == crate::flow::refuses(self@, text@),
    {
        let mut work = self;
        work.cell.note_verdict(Verdict::Refused);
        work.fails(text)
    }

    /// The call is over with the result of a request, or with an error text
    /// that begins with `what`.
    fn reports(self, outcome: Result<Json, ClientError>, what: &str) -> (res: (Run, Step))
        ensures
            (res.0@, res.1@) == crate::flow::reports(self@, document_view(outcome), what@),
    {
        match outcome {
            Ok(v) => self.succeeds(v),
            Err(e) => self.fails(concat(what, e.message().as_str())),
        }
    }

    /// The call is over with `done` where a change went through, or with an
    /// error text that begins with `what`.
    fn confirms(self, outcome: Result<(), ClientError>, done: Json, what: &str) -> (res: (Run, Step))
        ensures
            (res.0@, res.1@) == crate::flow::confirms(self@, done_view(outcome), done@, what@),
    {
        match outcome {
            Ok(()) => self.succeeds(done),
            Err(e) => self.fails(concat(what, e.message().as_str())),
        }
    }
}

// --- gates ------------------------------------------------------------------

/// The one gate of a tool.
fn only_gate(index: usize, key: &String, cap: Capability) -> (res: Option<(&str, Capability)>)
    ensures
        match res {
            Some((k, c)) => index == 0 && k@ == key@ && c == cap,
            None => index > 0,
        },
{
    if index == 0 {
        Some((key.as_str(), cap))
    } else {
        None
    }
}

/// A gate of a tool: the issue that it touches and the capability that it
/// needs there.
fn gate_at(call: &ToolCall, index: usize) -> (res: Option<(&str, Capability)>)
    ensures
        match res {
            Some((key, cap)) => index < gates(*call).len() && gates(*call)[index as int] == (
                key@,
                cap,
            ),
            None => index >= gates(*call).len(),
        },
{
    match call {
        ToolCall::IssueComments(p) => only_gate(index, &p.key, Capability::Comments),
        ToolCall::IssueHistory(p) => only_gate(index, &p.key, Capability::History),
        ToolCall::ListAttachments(p) => only_gate(index, &p.key, Capability::Attachments),
        ToolCall::DownloadAttachment(p) => only_gate(index, &p.key, Capability::Attachments),
        ToolCall::SummarizeIssue(p) => only_gate(index, &p.key, Capability::Comments),
        ToolCall::AddComment(p) => only_gate(index, &p.key, Capability::Comment),
        ToolCall::ListTransitions(p) => only_gate(index, &p.key, Capability::Read),
        ToolCall::TransitionIssue(p) => only_gate(index, &p.key, Capability::Status),
        ToolCall::AssignIssue(p) => only_gate(index, &p.key, Capability::Assign),
        ToolCall::UpdateIssueFields(p) => only_gate(index, &p.key, Capability::Fields),
        ToolCall::AddWatcher(p) => only_gate(index, &p.key, Capability::Watchers),
        ToolCall::LinkIssues(p) => if index == 0 {
            Some((p.inward_key.as_str(), Capability::Links))
        } else if index == 1 {
            Some((p.outward_key.as_str(), Capability::Summary))
        } else {
            None
        },
        ToolCall::AddAttachment(p) => only_gate(index, &p.key, Capability::Attach),
        _ => None,
    }
}

/// A list of one text.
fn one_text(text: &str) -> (res: Vec<String>)
    ensures
        texts(res@) == seq![text@],
{
    let res = vec![text.to_owned()];
    assert(texts(res@) =~= seq![text@]);
    res
}

/// One key is fetched at most once.
proof fn lemma_one_key(key: Seq<char>)
    ensures
        fetch_list(seq![key]).len() <= 1,
{
    reveal_with_fuel(distinct_keys, 2);
    assert(seq![key].drop_last() =~= Seq::<Seq<char>>::empty());
}

impl Work {
    /// Notes the verdict on a gate.
    fn gate_noted(self, entry: Option<&(Access, Json)>, allowed: bool) -> (res: Work)
        ensures
            res@ == gate_noted(
                self@,
                match entry {
                    Some(e) => Some((e.0@, e.1@)),
                    None => None,
                },
                allowed,
            ),
    {
        let mut work = self;
        let verdict = if allowed {
            Verdict::Served
        } else {
            Verdict::Denied
        };
        match entry {
            Some(e) => {
                work.cell.note_verdict_rule(verdict, e.0.rule());
            },
            None => {
                work.cell.note_verdict(verdict);
            },
        }
        work
    }
}

impl JiraKeep {
    /// The request that fetches an issue to classify it.
    fn classify_request(&self, work: &Work, key: &str) -> (res: Request)
        ensures
            res@ == crate::flow::classify_request(self@, work@, key@),
    {
        self.jira().get_issue(&work.creds, key, Some(CLASSIFY_FIELDS))
    }

    /// The call comes to its next gate, or has passed all of them.
    fn gate_begun(&self, work: Work, index: usize) -> (res: (Run, Step))
        ensures
            (res.0@, res.1@) == gate_begun(self@, work@, index as int),
    {
        let key = match gate_at(&work.call, index) {
            None => {
                return self.proceeds(work);
            },
            Some((key, _)) => key.to_owned(),
        };
        let wanted = Guard::keys_to_fetch(&one_text(key.as_str()));
        proof {
            lemma_one_key(key@);
        }
        if wanted.len() == 0 {
            let work = work.gate_noted(None, false);
            work.fails(Guard::denial(key.as_str()))
        } else {
            assert(texts(wanted@)[0] == wanted@[0]@);
            let request = self.classify_request(&work, wanted[0].as_str());
            work.sends(Stage::Gate { index }, request)
        }
    }

    /// The issue of a gate came, or did not.
    fn gate_decided(&self, work: Work, index: usize, reply: Option<Json>, now: i64) -> (res: (
        Run,
        Step,
    ))
        requires
            index < gates(work@.call).len(),
            fetch_list(seq![gates(work@.call)[index as int].0]).len() == 1,
        ensures
            (res.0@, res.1@) == gate_decided(
                self@,
                work@,
                index as int,
                match reply {
                    Some(v) => Some(v@),
                    None => None,
                },
                now as int,
            ),
    {
        let (key, cap) = match gate_at(&work.call, index) {
            None => {
                return self.proceeds(work);
            },
            Some((key, cap)) => (key.to_owned(), cap),
        };
        let keys = one_text(key.as_str());
        let replies = vec![reply];
        proof {
            assert(replies_view(replies@) =~= seq![
                match reply {
                    Some(v) => Some(v@),
                    None => None,
                },
            ]);
        }
        let assessments = self.guard().assess(&keys, &replies, work.caller(), now);
        let entry = assessments.get(key.as_str());
        assert(assessment_in(assessments@, key@) == match entry {
            Some(e) => Some((e.0@, e.1@)),
            None => None,
        });
        let allowed = match entry {
            Some(e) => e.0.allows(cap),
            None => false,
        };
        let work = work.gate_noted(entry, allowed);
        if allowed {
            self.gate_begun(work, index + 1)
        } else {
            work.fails(Guard::denial(key.as_str()))
        }
    }

    /// What follows once the gates are passed.
    fn proceeds(&self, work: Work) -> (res: (Run, Step))
        ensures
            (res.0@, res.1@) == crate::flow::proceeds(self@, work@),
    {
        match self.main_request(&work) {
            Next::Send(request) => work.sends(Stage::Main, request),
            Next::Refuse(text) => work.refuses(text),
            Next::Fail(text) => work.fails(text),
        }
    }

    /// The request that a tool is there for, or why there is none.
    fn main_request(&self, work: &Work) -> (res: Next)
        ensures
            match res {
                Next::Send(request) => crate::flow::proceeds(self@, work@) == crate::flow::sends(
                    work@,
                    StageView::Main,
                    request@,
                ),
                Next::Refuse(text) => crate::flow::proceeds(self@, work@) == crate::flow::refuses(
                    work@,
                    text@,
                ),
                Next::Fail(text) => crate::flow::proceeds(self@, work@) == crate::flow::fails(
                    work@,
                    text@,
                ),
            },
    {
        let client = self.jira();
        let creds = &work.creds;
        match &work.call {
            ToolCall::IssueComments(p) => Next::Send(
                client.issue_comments(creds, p.key.as_str(), 0, at_most_100(p.max_results)),
            ),
            ToolCall::IssueHistory(p) => Next::Send(
                client.issue_changelog(creds, p.key.as_str(), 0, at_most_100(p.max_results)),
            ),
            ToolCall::ListAttachments(p) => Next::Send(
                client.list_attachments(creds, p.key.as_str()),
            ),
            ToolCall::DownloadAttachment(p) => Next::Send(
                client.list_attachments(creds, p.key.as_str()),
            ),
            ToolCall::SummarizeIssue(p) => Next::Send(
                client.issue_comments(creds, p.key.as_str(), 0, 100),
            ),
            ToolCall::AddComment(p) => Next::Send(
                client.add_comment(creds, p.key.as_str(), p.body.as_str(), None),
            ),
            ToolCall::ListTransitions(p) => Next::Send(
                client.get_transitions(creds, p.key.as_str()),
            ),
            ToolCall::TransitionIssue(p) => Next::Send(
                client.transition_issue(
                    creds,
                    p.key.as_str(),
                    p.transition_id.as_str(),
                    None,
                    borrowed(&p.comment),
                ),
            ),
            ToolCall::AssignIssue(p) => Next::Send(
                client.update_issue(
                    creds,
                    p.key.as_str(),
                    assignment_fields(&p.account_id),
                ),
            ),
            ToolCall::UpdateIssueFields(p) => match &p.fields {
                Json::Object(fields) => match find_refused(fields) {
                    Some(name) => Next::Refuse(
                        concat3(
                            "field \"",
                            name,
                            "\" cannot be set through update_issue_fields",
                        ),
                    ),
                    None => Next::Send(
                        client.update_issue(creds, p.key.as_str(), p.fields.clone()),
                    ),
                },
                _ => Next::Refuse("fields must be a JSON object".to_owned()),
            },
            ToolCall::AddWatcher(p) => Next::Send(
                client.add_watcher(creds, p.key.as_str(), p.account_id.as_str()),
            ),
            ToolCall::LinkIssues(p) => Next::Send(
                client.create_issue_link(
                    creds,
                    p.link_type.as_str(),
                    p.inward_key.as_str(),
                    p.outward_key.as_str(),
                ),
            ),
            ToolCall::AddAttachment(p) => match self.guard().check_upload(
                decode_base64(trim(p.content_base64.as_str())),
            ) {
                Ok(data) => Next::Send(
                    client.add_attachment(creds, p.key.as_str(), p.filename.as_str(), data),
                ),
                Err(text) => Next::Refuse(text),
            },
            _ => Next::Fail(ClientError::Unexpected.message()),
        }
    }
}

// --- the request of a tool --------------------------------------------------

/// What follows once the gates are passed.
enum Next {
    Send(Request),
    Refuse(String),
    Fail(String),
}

/// `n`, but no more than 100.
fn at_most_100(n: u32) -> (res: u32)
    ensures
        res == capped(n, 100),
{
    if n <= 100 {
        n
    } else {
        100
    }
}

/// An optional text, borrowed.
fn borrowed(text: &Option<String>) -> (res: Option<&str>)
    ensures
        optional_str(res) == optional_text(*text),
{
    match text {
        Some(s) => Some(s.as_str()),
        None => None,
    }
}

/// The fields of an assignment.
pub fn assignment_fields(account_id: &Option<String>) -> (res: Json)
    ensures
        res@ == assignment(optional_text(*account_id)),
{
    let assignee = match account_id {
        Some(id) => Json::Object(Members::new().with("accountId", Json::text(id.as_str()))),
        None => Json::Null,
    };
    Json::Object(Members::new().with("assignee", assignee))
}

/// The first governed field that an update would set.
pub fn find_refused(fields: &Members) -> (res: Option<&'static str>)
    ensures
        match res {
            Some(name) => refused_field(fields@) == Some(name@),
            None => refused_field(fields@) is None,
        },
{
    if fields.contains_key("assignee") {
        Some("assignee")
    } else if fields.contains_key("resolution") {
        Some("resolution")
    } else if fields.contains_key("parent") {
        Some("parent")
    } else if fields.contains_key("security") {
        Some("security")
    } else if fields.contains_key("project") {
        Some("project")
    } else if fields.contains_key("reporter") {
        Some("reporter")
    } else {
        None
    }
}

impl Guard {
    /// An upload, given the bytes that its content stands for: the bytes, or
    /// why it is refused.
    pub fn check_upload(&self, bytes: Option<Vec<u8>>) -> (res: Result<Vec<u8>, String>)
        ensures
            match res {
                Ok(data) => upload_checked(self.policy@, optional_bytes(bytes)) == Ok::<
                    Seq<u8>,
                    Seq<char>,
                >(data@),
                Err(text) => upload_checked(self.policy@, optional_bytes(bytes)) == Err::<
                    Seq<u8>,
                    Seq<char>,
                >(text@),
            },
    {
        match bytes {
            None => Err("content_base64 is not valid base64".to_owned()),
            Some(data) => if self.attachment_within_cap(Some(data.len() as u64)) {
                Ok(data)
            } else {
                Err("attachment exceeds max_attachment_bytes".to_owned())
            },
        }
    }
}

/// Optional bytes.
pub open spec fn optional_bytes(bytes: Option<Vec<u8>>) -> Option<Seq<u8>> {
    match bytes {
        Some(data) => Some(data@),
        None => None,
    }
}

// --- keys that a response names ---------------------------------------------

impl JiraKeep {
    /// The call fetches the issues that a response names, one after the other,
    /// to classify them.
    fn linked_fetched(
        &self,
        work: Work,
        named: KeySet,
        replies: Vec<Option<Json>>,
        pending: Pending,
        now: i64,
    ) -> (res: (Run, Step))
        requires
            replies@.len() <= fetch_list(sorted(named@)).len(),
            pending@.sound(),
        ensures
            (res.0@, res.1@) == linked_fetched(
                self@,
                work@,
                named@,
                replies_view(replies@),
                pending@,
                now as int,
            ),
    {
        let wanted = Guard::keys_to_fetch(named.keys());
        assert(wanted@.len() == fetch_list(sorted(named@)).len());
        if replies.len() < wanted.len() {
            let ghost next = replies@.len() as int;
            assert(texts(wanted@)[next] == wanted@[next]@);
            let request = self.classify_request(&work, wanted[replies.len()].as_str());
            work.sends(Stage::Linked { named, replies, pending }, request)
        } else {
            self.linked_done(work, named, replies, pending, now)
        }
    }

    /// All of the issues came, or did not: what waited for them is served
    /// without the keys that may not be disclosed.
    fn linked_done(
        &self,
        work: Work,
        named: KeySet,
        replies: Vec<Option<Json>>,
        pending: Pending,
        now: i64,
    ) -> (res: (Run, Step))
        requires
            replies@.len() == fetch_list(sorted(named@)).len(),
            pending@.sound(),
        ensures
            (res.0@, res.1@) == linked_done(
                self@,
                work@,
                named@,
                replies_view(replies@),
                pending@,
                now as int,
            ),
    {
        let guard = self.guard();
        let disclosable = guard.disclosable(&named, &replies, work.caller(), now);
        assert(disclosable@ =~= disclosed_keys(
            self@.policy,
            named@,
            replies_view(replies@),
            work@.caller,
            now as int,
        ));
        match pending {
            Pending::Changelog(changelog) => work.succeeds(
                Guard::scrub_changelog(&changelog, &disclosable),
            ),
            Pending::Search(scan) => {
                let window = guard.search_window(scan, &disclosable);
                let work = work.search_noted(&window);
                work.succeeds(search_document(&window))
            },
            Pending::Issue { info, access, body } => {
                let custom = &guard.policy.global.link_custom_fields;
                let (issue, removed) = Guard::scrub_links(&body, &disclosable, custom);
                proof {
                    let set = Set::new(
                        |k: Seq<char>| scrubbed_key(body@, texts(custom@), disclosable@, k),
                    );
                    assert(texts(removed@).to_set() =~= set);
                    lemma_sorted(texts(removed@));
                }
                let work = work.served_noted(&access);
                self.info_goes_on(work, info.with_issue(issue, removed))
            },
        }
    }
}

impl Work {
    /// Notes a search.
    fn search_noted(self, window: &SearchWindow) -> (res: Work)
        ensures
            res@ == (RunView { cell: search_noted(self@.cell, window@), ..self@ }),
    {
        let mut work = self;
        work.cell.note_verdict(Verdict::Filtered);
        work.cell.note_suppressed(&window.dropped_keys);
        work.cell.note_suppressed_count(window.dropped_keys.len() as u64);
        work.cell.note_suppressed(&window.scrubbed_keys);
        work.cell.note_scan(window.scanned as u64, window.dropped_keys.len() as u64);
        work
    }

    /// Notes a served issue.
    fn served_noted(self, access: &Access) -> (res: Work)
        ensures
            res@ == (RunView { cell: served_noted(self@.cell, access@), ..self@ }),
    {
        let mut work = self;
        work.cell.note_verdict_rule(Verdict::Served, access.rule());
        work
    }
}

/// What the client sees of a search: the issues and the token of the next
/// page.
pub fn search_document(window: &SearchWindow) -> (res: Json)
    ensures
        res@ == search_result(window@),
{
    let token = match &window.next_page_token {
        Some(token) => Json::text(token.as_str()),
        None => Json::Null,
    };
    Json::Object(
        Members::new().with("issues", Json::Array(copy_items(&window.issues))).with(
            "nextPageToken",
            token,
        ),
    )
}

// --- issue details ----------------------------------------------------------

impl Info {
    /// One more issue to serve, and the keys that were taken out of it.
    fn with_issue(self, issue: Json, removed: Vec<String>) -> (res: Info)
        requires
            self@.waits(),
        ensures
            res@ == (InfoView {
                next: self@.next + 1,
                issues: self@.issues.push(issue@),
                scrubbed: self@.scrubbed + texts(removed@),
                ..self@
            }),
    {
        let ghost before = self@;
        let mut info = self;
        info.issues.push(issue);
        assert(items_view(info.issues@) =~= before.issues.push(issue@));
        let mut removed = removed;
        let ghost more = texts(removed@);
        info.scrubbed.append(&mut removed);
        assert(texts(info.scrubbed@) =~= before.scrubbed + more);
        assert(info.next < info.keys.len());
        info.next += 1;
        info
    }

    /// The next key is restricted.
    fn skipped(self) -> (res: Info)
        requires
            self@.waits(),
        ensures
            res@ == (InfoView {
                next: self@.next + 1,
                restricted: self@.restricted.push(self@.keys[self@.next]),
                ..self@
            }),
    {
        let ghost before = self@;
        let mut info = self;
        let key = info.keys[info.next].clone();
        info.restricted.push(key);
        assert(texts(info.restricted@) =~= before.restricted.push(before.keys[before.next]));
        assert(info.next < info.keys.len());
        info.next += 1;
        info
    }
}

impl JiraKeep {
    /// The next key, and those after it.
    fn info_goes_on(&self, work: Work, info: Info) -> (res: (Run, Step))
        requires
            info@.sound(),
        ensures
            (res.0@, res.1@) == info_goes_on(self@, work@, info@),
        decreases info@.keys.len() - info@.next,
    {
        if info.next >= info.keys.len() {
            return work.info_ended(info);
        }
        let ghost next = info.next as int;
        assert(info@.entries[next] == entry_view(info.entries@[next]));
        match &info.entries[info.next] {
            Some((access, body)) => {
                if body.is_null() {
                    self.info_goes_on(work, info.skipped())
                } else if access.allows(Capability::Read) {
                    let access = access.clone();
                    let body = body.clone();
                    let request = self.jira().get_issue(
                        &work.creds,
                        info.keys[info.next].as_str(),
                        None,
                    );
                    work.sends(Stage::Full { info, access, body }, request)
                } else {
                    match Guard::project_issue(access, body) {
                        Some(summary) => {
                            let work = work.served_noted(access);
                            assert(info@.scrubbed + Seq::<Seq<char>>::empty() =~= info@.scrubbed);
                            let none: Vec<String> = Vec::new();
                            assert(texts(none@) =~= Seq::<Seq<char>>::empty());
                            self.info_goes_on(work, info.with_issue(summary, none))
                        },
                        None => self.info_goes_on(work, info.skipped()),
                    }
                }
            },
            None => self.info_goes_on(work, info.skipped()),
        }
    }
}

impl Work {
    /// The call for issue details is over.
    fn info_ended(self, info: Info) -> (res: (Run, Step))
        ensures
            (res.0@, res.1@) == info_ended(self@, info@),
    {
        let mut work = self;
        work.cell.note_suppressed(&info.restricted);
        if info.restricted.len() > 0 {
            work.cell.note_suppressed_count(info.restricted.len() as u64);
        }
        work.cell.note_suppressed(&info.scrubbed);
        let result = Json::Object(
            Members::new().with("issues", Json::Array(info.issues)).with(
                "restricted",
                Json::texts(&info.restricted),
            ),
        );
        work.succeeds(result)
    }
}

/// The keys of a call for issue details: trimmed, without blank ones.
pub fn clean_keys(keys: &Vec<String>) -> (res: Vec<String>)
    ensures
        texts(res@) == cleaned(texts(keys@)),
{
    let ghost all = texts(keys@);
    let mut out: Vec<String> = Vec::new();
    let mut i: usize = 0;
    assert(texts(out@) =~= cleaned(all.take(0)));
    while i < keys.len()
        invariant
            i <= keys.len(),
            all == texts(keys@),
            texts(out@) == cleaned(all.take(i as int)),
        decreases keys.len() - i,
    {
        let key = trim(keys[i].as_str());
        proof {
            assert(all.take(i + 1).drop_last() =~= all.take(i as int));
            assert(all.take(i + 1).last() == all[i as int]);
        }
        if key.unicode_len() > 0 {
            let ghost held = texts(out@);
            out.push(key.to_owned());
            assert(texts(out@) =~= held.push(key@));
        }
        i += 1;
    }
    assert(all.take(keys@.len() as int) =~= all);
    out
}

/// What an assessment says of each key.
fn entries_of(assessments: &KeyMap<(Access, Json)>, keys: &Vec<String>) -> (res: Vec<
    Option<(Access, Json)>,
>)
    ensures
        entries_view(res@) == Seq::new(
            keys@.len(),
            |i: int| assessment_in(assessments@, keys@[i]@),
        ),
{
    let mut out: Vec<Option<(Access, Json)>> = Vec::new();
    let mut i: usize = 0;
    while i < keys.len()
        invariant
            i <= keys.len(),
            out@.len() == i,
            forall|j: int|
                0 <= j < i ==> entry_view(#[trigger] out@[j]) == assessment_in(
                    assessments@,
                    keys@[j]@,
                ),
        decreases keys.len() - i,
    {
        let entry = match assessments.get(keys[i].as_str()) {
            Some(e) => Some((e.0.clone(), e.1.clone())),
            None => None,
        };
        out.push(entry);
        i += 1;
    }
    assert(entries_view(out@) =~= Seq::new(
        keys@.len(),
        |i: int| assessment_in(assessments@, keys@[i]@),
    ));
    out
}

impl JiraKeep {
    /// A call for issue details fetches the issues, one after the other.
    fn info_begun(&self, work: Work, keys: Vec<String>, now: i64) -> (res: (Run, Step))
        ensures
            (res.0@, res.1@) == info_begun(self@, work@, texts(keys@), now as int),
    {
        if keys.len() > MAX_ASSESS_KEYS {
            work.refuses("at most 25 issue keys per call".to_owned())
        } else {
            let replies: Vec<Option<Json>> = Vec::new();
            assert(replies_view(replies@) =~= Seq::empty());
            self.info_fetched(work, keys, replies, now)
        }
    }

    /// The next of the issues is fetched, or all of them came.
    fn info_fetched(
        &self,
        work: Work,
        keys: Vec<String>,
        replies: Vec<Option<Json>>,
        now: i64,
    ) -> (res: (Run, Step))
        requires
            replies@.len() <= fetch_list(texts(keys@)).len(),
        ensures
            (res.0@, res.1@) == info_fetched(
                self@,
                work@,
                texts(keys@),
                replies_view(replies@),
                now as int,
            ),
    {
        let wanted = Guard::keys_to_fetch(&keys);
        assert(wanted@.len() == fetch_list(texts(keys@)).len());
        if replies.len() < wanted.len() {
            let ghost next = replies@.len() as int;
            assert(texts(wanted@)[next] == wanted@[next]@);
            let request = self.classify_request(&work, wanted[replies.len()].as_str());
            work.sends(Stage::Keys { keys, replies }, request)
        } else {
            let assessments = self.guard().assess(&keys, &replies, work.caller(), now);
            let entries = entries_of(&assessments, &keys);
            let ghost all = texts(keys@);
            let ghost seen = replies_view(replies@);
            let info = Info {
                keys,
                entries,
                next: 0,
                issues: Vec::new(),
                restricted: Vec::new(),
                scrubbed: Vec::new(),
            };
            proof {
                let expected = Seq::new(
                    all.len(),
                    |i: int|
                        assessment_of(self@.policy, all, seen, work@.caller, now as int, all[i]),
                );
                assert forall|i: int| 0 <= i < all.len() implies info@.entries[i]
                    == #[trigger] expected[i] by {
                    assert(assessments@.dom().contains(all[i]) == assessments@.dom().contains(
                        keys@[i]@,
                    ));
                }
                assert(info@.entries =~= expected);
                assert(info@.issues =~= Seq::empty());
                assert(info@.restricted =~= Seq::empty());
                assert(info@.scrubbed =~= Seq::empty());
            }
            self.info_goes_on(work, info)
        }
    }

    /// The whole body of an issue came; where it did not, the one it was
    /// classified by stands in.
    fn full_found(
        &self,
        work: Work,
        info: Info,
        access: Access,
        body: Json,
        outcome: Result<Json, ClientError>,
        now: i64,
    ) -> (res: (Run, Step))
        requires
            info@.waits(),
        ensures
            (res.0@, res.1@) == full_found(
                self@,
                work@,
                info@,
                access@,
                body@,
                document_view(outcome),
                now as int,
            ),
    {
        let whole = match outcome {
            Ok(v) => v,
            Err(_) => body,
        };
        let full = Guard::scrub_gated_fields(&access, whole);
        let custom = &self.guard().policy.global.link_custom_fields;
        let mut named = Guard::linked_keys(&full, custom);
        named.insert(info.keys[info.next].as_str());
        assert(named@ =~= issue_keys(self@.policy, info@.keys[info@.next], full@));
        let replies: Vec<Option<Json>> = Vec::new();
        assert(replies_view(replies@) =~= Seq::empty());
        self.linked_fetched(work, named, replies, Pending::Issue { info, access, body: full }, now)
    }
}

// --- searching --------------------------------------------------------------

/// The number of issues on a page.
fn page_limit(max_results: u32) -> (res: u32)
    ensures
        res == page_size(max_results),
{
    if max_results <= 50 {
        max_results
    } else {
        50
    }
}

/// The query of a search.
fn search_query(jql: &str, limit: u32, token: &Option<String>, start_at: Option<u32>) -> (res:
    SearchQuery)
    ensures
        res@ == query_of(jql@, limit as int, *token, start_at),
{
    let fields = split(CLASSIFY_FIELDS, ',');
    assert(texts(fields@) =~= parts(CLASSIFY_FIELDS@, ','));
    SearchQuery {
        jql: jql.to_owned(),
        fields,
        max_results: Guard::search_fetch_size(limit),
        next_page_token: copy_text(token),
        start_at,
    }
}

impl JiraKeep {
    /// The call searches.
    fn searches(&self, work: Work, query: SearchQuery, limit: u32) -> (res: (Run, Step))
        ensures
            (res.0@, res.1@) == searches(self@, work@, query@, limit as int),
    {
        let request = self.jira().search(&work.creds, &query);
        work.sends(Stage::Search { query, limit, retried: false }, request)
    }

    /// A saved filter came.
    fn filter_found(&self, work: Work, outcome: Result<Json, ClientError>) -> (res: (Run, Step))
        ensures
            (res.0@, res.1@) == filter_found(self@, work@, document_view(outcome)),
    {
        let (limit, token, start_at) = match &work.call {
            ToolCall::SearchFilter(p) => (
                page_limit(p.max_results),
                &p.next_page_token,
                p.start_at,
            ),
            _ => {
                return work.fails(ClientError::Unexpected.message());
            },
        };
        match outcome {
            Ok(filter) => match filter.text_at("jql") {
                Some(jql) => {
                    let query = search_query(jql, limit, token, start_at);
                    self.searches(work, query, limit)
                },
                None => work.fails("filter has no JQL".to_owned()),
            },
            Err(e) => work.fails(concat("filter lookup failed: ", e.message().as_str())),
        }
    }

    /// The result of a search came.
    fn search_found(
        &self,
        work: Work,
        query: SearchQuery,
        limit: u32,
        retried: bool,
        outcome: Result<Json, ClientError>,
        now: i64,
    ) -> (res: (Run, Step))
        ensures
            (res.0@, res.1@) == search_found(
                self@,
                work@,
                query@,
                limit as int,
                retried,
                document_view(outcome),
                now as int,
            ),
    {
        if self.jira().search_again(retried, &outcome) {
            let request = self.jira().offset_search(&work.creds, &query);
            return work.sends(Stage::Search { query, limit, retried: true }, request);
        }
        match outcome {
            Err(e) => work.fails(concat("search failed: ", e.message().as_str())),
            Ok(envelope) => {
                let scan = self.guard().search_filtered(&envelope, limit, work.caller(), now);
                let named = scan.candidates.copy();
                let replies: Vec<Option<Json>> = Vec::new();
                assert(replies_view(replies@) =~= Seq::empty());
                self.linked_fetched(work, named, replies, Pending::Search(scan), now)
            },
        }
    }
}

// --- filing an issue --------------------------------------------------------

/// The metadata of an issue to be filed.
pub fn creation_metadata(policy: &Policy, p: &CreateIssueParams) -> (res: IssueMeta)
    ensures
        res@ == creation_meta(policy@, *p),
{
    IssueMeta {
        project: Some(p.project_key.clone()),
        summary: Some(p.summary.clone()),
        status: None,
        priority: copy_text(&p.priority),
        issue_type: Some(p.issue_type.clone()),
        labels: copy_optional_texts(&p.labels),
        components: copy_optional_texts(&p.components),
        security: SecurityLevel::Unreadable,
        created: None,
        created_by_me: Some(true),
        public_projects: copy_texts(&policy.global.public_projects),
    }
}

/// `{"name": ..}`.
fn named_document(name: &str) -> (res: Json)
    ensures
        res@ == named(name@),
{
    Json::Object(Members::new().with("name", Json::text(name)))
}

/// `{"name": ..}` for each name.
fn named_documents(names: &Vec<String>) -> (res: Json)
    ensures
        res@ == JsonView::Array(
            Seq::new(texts(names@).len(), |i: int| named(texts(names@)[i])),
        ),
{
    let mut out: Vec<Json> = Vec::new();
    let mut i: usize = 0;
    while i < names.len()
        invariant
            i <= names.len(),
            out@.len() == i,
            forall|j: int| 0 <= j < i ==> (#[trigger] out@[j])@ == named(names@[j]@),
        decreases names.len() - i,
    {
        out.push(named_document(names[i].as_str()));
        i += 1;
    }
    assert(items_view(out@) =~= Seq::new(
        texts(names@).len(),
        |i: int| named(texts(names@)[i]),
    ));
    Json::Array(out)
}

/// The fields of an issue to be filed.
pub fn creation_document(p: &CreateIssueParams) -> (res: Json)
    ensures
        res@ == creation_fields(*p),
{
    let project = Json::Object(Members::new().with("key", Json::text(p.project_key.as_str())));
    let mut fields = Members::new().with("project", project).with(
        "summary",
        Json::text(p.summary.as_str()),
    ).with("issuetype", named_document(p.issue_type.as_str()));
    if let Some(text) = &p.description {
        fields.insert("description", plain_to_adf(text.as_str()));
    }
    if let Some(list) = &p.labels {
        fields.insert("labels", Json::texts(list));
    }
    if let Some(list) = &p.components {
        fields.insert("components", named_documents(list));
    }
    if let Some(name) = &p.priority {
        fields.insert("priority", named_document(name.as_str()));
    }
    Json::Object(fields)
}

impl JiraKeep {
    /// Filing an issue.
    fn creates(&self, work: Work, now: i64) -> (res: (Run, Step))
        requires
            work@.call is CreateIssue,
        ensures
            (res.0@, res.1@) == creates(self@, work@, work@.call->CreateIssue_0, now as int),
    {
        let guard = self.guard();
        match &work.call {
            ToolCall::CreateIssue(p) => {
                let meta = creation_metadata(&guard.policy, p);
                if guard.may_create(&meta, now).allows(Capability::Create) {
                    let request = self.jira().create_issue(&work.creds, creation_document(p));
                    work.sends(Stage::Main, request)
                } else {
                    let text = concat3(
                        "Issue create in project ",
                        p.project_key.as_str(),
                        " is not permitted by policy",
                    );
                    work.refuses(text)
                }
            },
            _ => work.fails(ClientError::Unexpected.message()),
        }
    }
}

// --- attachments ------------------------------------------------------------

/// Whether attachment metadata has that id.
fn id_is(meta: &Json, id: &str) -> (res: bool)
    ensures
        res == has_id(meta@, id@),
{
    match meta.get("id") {
        Some(Json::Text(s)) => same_text(s.as_str(), id),
        Some(Json::Unsigned(n)) => same_text(decimal(*n).as_str(), id),
        _ => false,
    }
}

/// The first attachment with that id.
pub fn find_attachment(items: &Vec<Json>, id: &str) -> (res: Option<Json>)
    ensures
        optional_json(res) == attachment_with(items_view(items@), id@),
{
    let ghost all = items_view(items@);
    let mut i: usize = 0;
    assert(all.skip(0) =~= all);
    while i < items.len()
        invariant
            i <= items.len(),
            all == items_view(items@),
            attachment_with(all, id@) == attachment_with(all.skip(i as int), id@),
        decreases items.len() - i,
    {
        proof {
            assert(all.skip(i as int).drop_first() =~= all.skip(i + 1));
            assert(all.skip(i as int)[0] == items@[i as int]@);
        }
        if id_is(&items[i], id) {
            return Some(items[i].clone());
        }
        i += 1;
    }
    None
}

/// The size that attachment metadata tells.
fn size_of_attachment(meta: &Json) -> (res: Option<u64>)
    ensures
        optional_size(res) == told_size(meta@),
{
    match meta.get("size") {
        Some(v) => v.as_u64(),
        None => None,
    }
}

/// The text for an attachment over the limit, or of unknown size under one.
fn too_large(size: Option<u64>) -> (res: String)
    ensures
        res@ == too_large_text(optional_size(size)),
{
    match size {
        Some(n) => concat3(
            "attachment exceeds max_attachment_bytes (",
            decimal(n).as_str(),
            " bytes)",
        ),
        None => "attachment exceeds max_attachment_bytes (size unknown)".to_owned(),
    }
}

/// What is served of a download, given the text that encodes its bytes.
pub fn download_document(p: &DownloadAttachmentParams, meta: &Json, size: u64, encoded: &str) -> (res:
    Json)
    ensures
        res@ == download_result(*p, meta@, size as nat, encoded@),
{
    let filename = match meta.get("filename") {
        Some(v) => v.clone(),
        None => Json::Null,
    };
    Json::Object(
        Members::new().with("key", Json::text(p.key.as_str())).with(
            "attachment_id",
            Json::text(p.attachment_id.as_str()),
        ).with("filename", filename).with("size", Json::Unsigned(size)).with(
            "content_base64",
            Json::text(encoded),
        ),
    )
}

impl JiraKeep {
    /// A download, given the attachments of the issue.
    fn downloads(&self, work: Work, items: Vec<Json>) -> (res: (Run, Step))
        requires
            work@.call is DownloadAttachment,
        ensures
            (res.0@, res.1@) == downloads(
                self@,
                work@,
                work@.call->DownloadAttachment_0,
                items_view(items@),
            ),
    {
        let (key, id) = match &work.call {
            ToolCall::DownloadAttachment(p) => (p.key.as_str(), p.attachment_id.as_str()),
            _ => {
                return work.fails(ClientError::Unexpected.message());
            },
        };
        let meta = match find_attachment(&items, id) {
            Some(meta) => meta,
            None => {
                let text = Guard::denial(key);
                return work.fails(text);
            },
        };
        let size = size_of_attachment(&meta);
        if !self.guard().attachment_within_cap(size) {
            return work.refuses(too_large(size));
        }
        let planned = match meta.text_at("content") {
            None => {
                return work.fails("attachment has no content URL".to_owned());
            },
            Some(url) => self.jira().download_attachment_bytes(
                &work.creds,
                url,
                self.guard().attachment_cap(),
            ),
        };
        match planned {
            Ok(request) => work.sends(Stage::Download { meta }, request),
            Err(e) => work.fails(concat("download failed: ", e.message().as_str())),
        }
    }
}

impl Work {
    /// The content of an attachment came.
    fn downloaded(self, meta: Json, outcome: Result<Vec<u8>, ClientError>) -> (res: (Run, Step))
        ensures
            (res.0@, res.1@) == downloaded(self@, meta@, data_view(outcome)),
    {
        match &self.call {
            ToolCall::DownloadAttachment(p) => match outcome {
                Ok(bytes) => {
                    let result = download_document(
                        p,
                        &meta,
                        bytes.len() as u64,
                        encode_base64(&bytes).as_str(),
                    );
                    self.succeeds(result)
                },
                Err(e) => self.fails(concat("download failed: ", e.message().as_str())),
            },
            _ => self.fails(ClientError::Unexpected.message()),
        }
    }
}

// --- changelogs -------------------------------------------------------------

/// Takes down a value of a change, where it has a hyphen.
fn collect_value(change: &Json, name: &str, keys: &mut KeySet)
    ensures
        forall|k: Seq<char>| #[trigger]
            final(keys)@.contains(k) == (old(keys)@.contains(k) || (k.contains('-')
                && change@.text_at(name@) == Some(k))),
{
    if let Some(value) = change.text_at(name) {
        if contains_char(value, '-') {
            keys.insert(value);
        }
    }
}

/// Takes down the values with a hyphen in a list of changes.
fn collect_changes(changes: &Vec<Json>, keys: &mut KeySet)
    ensures
        forall|k: Seq<char>| #[trigger]
            final(keys)@.contains(k) == (old(keys)@.contains(k) || (k.contains('-')
                && changes_hold(items_view(changes@), k))),
{
    let ghost all = items_view(changes@);
    let ghost start = keys@;
    let mut i: usize = 0;
    while i < changes.len()
        invariant
            i <= changes.len(),
            all == items_view(changes@),
            forall|k: Seq<char>| #[trigger]
                keys@.contains(k) == (start.contains(k) || (k.contains('-') && changes_hold(
                    all.take(i as int),
                    k,
                ))),
        decreases changes.len() - i,
    {
        let ghost held = keys@;
        collect_value(&changes[i], "fromString", keys);
        collect_value(&changes[i], "toString", keys);
        collect_value(&changes[i], "from", keys);
        collect_value(&changes[i], "to", keys);
        proof {
            let a = all.take(i as int);
            let b = all.take(i + 1);
            assert forall|k: Seq<char>| #[trigger]
                keys@.contains(k) == (start.contains(k) || (k.contains('-') && changes_hold(
                    b,
                    k,
                ))) by {
                assert(held.contains(k) == (start.contains(k) || (k.contains('-')
                    && changes_hold(a, k))));
                assert(b[i as int] == changes@[i as int]@);
                if changes_hold(a, k) {
                    let j = choose|j: int| 0 <= j < a.len() && change_holds(#[trigger] a[j], k);
                    assert(change_holds(b[j], k));
                }
                if changes_hold(b, k) {
                    let j = choose|j: int| 0 <= j < b.len() && change_holds(#[trigger] b[j], k);
                    if j < i {
                        assert(change_holds(a[j], k));
                    }
                }
                if change_holds(b[i as int], k) {
                    assert(changes_hold(b, k));
                }
            }
        }
        i += 1;
    }
    assert(all.take(changes@.len() as int) =~= all);
}

/// Takes down the values with a hyphen in the entries of a changelog.
fn collect_entries(entries: &Vec<Json>, keys: &mut KeySet)
    ensures
        forall|k: Seq<char>| #[trigger]
            final(keys)@.contains(k) == (old(keys)@.contains(k) || (k.contains('-')
                && entries_hold(items_view(entries@), k))),
{
    let ghost all = items_view(entries@);
    let ghost start = keys@;
    let mut i: usize = 0;
    while i < entries.len()
        invariant
            i <= entries.len(),
            all == items_view(entries@),
            forall|k: Seq<char>| #[trigger]
                keys@.contains(k) == (start.contains(k) || (k.contains('-') && entries_hold(
                    all.take(i as int),
                    k,
                ))),
        decreases entries.len() - i,
    {
        let ghost held = keys@;
        if let Some(changes) = entries[i].items_at("items") {
            collect_changes(changes, keys);
        }
        proof {
            let a = all.take(i as int);
            let b = all.take(i + 1);
            assert forall|k: Seq<char>| #[trigger]
                keys@.contains(k) == (start.contains(k) || (k.contains('-') && entries_hold(
                    b,
                    k,
                ))) by {
                assert(held.contains(k) == (start.contains(k) || (k.contains('-')
                    && entries_hold(a, k))));
                assert(b[i as int] == entries@[i as int]@);
                if entries_hold(a, k) {
                    let j = choose|j: int|
                        0 <= j < a.len() && changes_hold(changes_of(#[trigger] a[j]), k);
                    assert(changes_hold(changes_of(b[j]), k));
                }
                if entries_hold(b, k) {
                    let j = choose|j: int|
                        0 <= j < b.len() && changes_hold(changes_of(#[trigger] b[j]), k);
                    if j < i {
                        assert(changes_hold(changes_of(a[j]), k));
                    }
                }
                if changes_hold(changes_of(b[i as int]), k) {
                    assert(entries_hold(b, k));
                }
            }
        }
        i += 1;
    }
    assert(all.take(entries@.len() as int) =~= all);
}

/// Entries that are joined hold what either list of them holds.
proof fn lemma_entries_joined(a: Seq<JsonView>, b: Seq<JsonView>, k: Seq<char>)
    ensures
        entries_hold(a + b, k) == (entries_hold(a, k) || entries_hold(b, k)),
{
    let all = a + b;
    if entries_hold(a, k) {
        let i = choose|i: int| 0 <= i < a.len() && changes_hold(changes_of(#[trigger] a[i]), k);
        assert(changes_hold(changes_of(all[i]), k));
    }
    if entries_hold(b, k) {
        let i = choose|i: int| 0 <= i < b.len() && changes_hold(changes_of(#[trigger] b[i]), k);
        assert(all[a.len() + i] == b[i]);
        assert(changes_hold(changes_of(all[a.len() + i]), k));
    }
    if entries_hold(all, k) {
        let i = choose|i: int|
            0 <= i < all.len() && changes_hold(changes_of(#[trigger] all[i]), k);
        if i < a.len() {
            assert(changes_hold(changes_of(a[i]), k));
        } else {
            assert(changes_hold(changes_of(b[i - a.len()]), k));
        }
    }
}

/// The keys that a changelog may name: that of the issue, and every value with
/// a hyphen.
pub fn keys_in_changelog(key: &str, changelog: &Json) -> (res: KeySet)
    ensures
        res@ == changelog_keys(key@, changelog@),
{
    let mut keys = KeySet::new();
    keys.insert(key);
    let ghost start = keys@;
    let both = match changelog.get("values") {
        Some(v) => match v.as_array() {
            Some(entries) => {
                collect_entries(entries, &mut keys);
                true
            },
            None => false,
        },
        None => true,
    };
    if both {
        if let Some(entries) = changelog.items_at("histories") {
            collect_entries(entries, &mut keys);
        }
    }
    proof {
        let first = entries_at(changelog@, "values"@);
        let second = entries_at(changelog@, "histories"@);
        assert forall|k: Seq<char>| #[trigger]
            entries_hold(first + second, k) == (entries_hold(first, k) || entries_hold(
                second,
                k,
            )) by {
            lemma_entries_joined(first, second, k);
        }
    }
    assert(forall|k: Seq<char>| #[trigger]
        keys@.contains(k) == (start.contains(k) || (k.contains('-') && entries_hold(
            changelog_entries(changelog@),
            k,
        ))));
    assert(keys@ =~= changelog_keys(key@, changelog@));
    keys
}

// --- the reply to the request of a tool -------------------------------------

/// What is served of a saved filter.
fn filter_document(filter: &Json) -> (res: Json)
    ensures
        res@ == filter_served(filter@),
{
    let owner = match filter.get("owner") {
        Some(owner) => member_or_null(owner, "displayName"),
        None => Json::Null,
    };
    Json::Object(
        Members::new().with("id", member_or_null(filter, "id")).with(
            "name",
            member_or_null(filter, "name"),
        ).with("description", member_or_null(filter, "description")).with(
            "jql",
            member_or_null(filter, "jql"),
        ).with("owner", owner),
    )
}

/// What is served of saved filters.
pub fn filters_document(filters: &Vec<Json>) -> (res: Json)
    ensures
        res@ == filters_served(items_view(filters@)),
{
    let ghost all = items_view(filters@);
    let mut out: Vec<Json> = Vec::new();
    let mut i: usize = 0;
    while i < filters.len()
        invariant
            i <= filters.len(),
            out@.len() == i,
            forall|j: int| 0 <= j < i ==> (#[trigger] out@[j])@ == filter_served(filters@[j]@),
        decreases filters.len() - i,
    {
        out.push(filter_document(&filters[i]));
        i += 1;
    }
    assert(items_view(out@) =~= Seq::new(all.len(), |i: int| filter_served(all[i])));
    Json::Object(Members::new().with("filters", Json::Array(out)))
}

/// The prompt for a summary, given the text of the comments.
pub fn summary_prompt(key: &str, comments: &str) -> (res: String)
    ensures
        res@ == prompt_head(key@) + comments@,
{
    let head = concat3(
        "You are an expert at summarizing Jira issue comments.\nRules:\n- Structure the summary clearly\n- Mention authors and dates where relevant\n- Do not invent facts not present in the data\n\nIssue: ",
        key,
        "\nComments:\n",
    );
    concat(head.as_str(), comments)
}

/// `{"ok": true}`.
fn ok_json() -> (res: Json)
    ensures
        res@ == ok_document(),
{
    Json::Object(Members::new().with("ok", Json::Bool(true)))
}

/// `{"ok": true, "key": ..}`.
fn ok_json_for(key: &str) -> (res: Json)
    ensures
        res@ == ok_for(key@),
{
    Json::Object(Members::new().with("ok", Json::Bool(true)).with("key", Json::text(key)))
}

/// `{"key": .., ..}`.
fn keyed(key: &str, name: &str, value: Json) -> (res: Json)
    ensures
        res@ == JsonView::Object(map!["key"@ => JsonView::Text(key@), name@ => value@]),
{
    Json::Object(Members::new().with("key", Json::text(key)).with(name, value))
}

impl JiraKeep {
    /// The comments in a reply that may be served.
    fn comments_in_reply(&self, envelope: &Json, opt_in: bool) -> (res: Json)
        ensures
            res@ == comments_served(self@, envelope@, opt_in),
    {
        match envelope.items_at("comments") {
            Some(comments) => Json::Array(self.guard().filter_comments(comments, opt_in)),
            None => {
                let none: Vec<Json> = Vec::new();
                assert(items_view(none@) =~= Seq::empty());
                Json::Array(self.guard().filter_comments(&none, opt_in))
            },
        }
    }

    /// The reply to the request that the tool is there for.
    fn concluded(&self, work: Work, event: Event, now: i64) -> (res: (Run, Step))
        ensures
            (res.0@, res.1@) == concluded(self@, work@, event@, now as int),
    {
        match &work.call {
            ToolCall::JiraServerInfo => {
                let outcome = self.jira().server_info_from(event.into_document());
                work.reports(outcome, "failed to fetch server info: ")
            },
            ToolCall::ListFilters => match JiraClient::favourite_filters_from(
                event.into_document(),
            ) {
                Ok(filters) => work.succeeds(filters_document(&filters)),
                Err(e) => work.fails(concat("failed to list filters: ", e.message().as_str())),
            },
            ToolCall::CreateIssue(_) => work.reports(
                event.into_document(),
                "create_issue failed: ",
            ),
            ToolCall::IssueComments(p) => match event.into_document() {
                Ok(v) => {
                    let comments = self.comments_in_reply(&v, p.include_restricted);
                    let result = keyed(p.key.as_str(), "comments", comments);
                    work.succeeds(result)
                },
                Err(_) => {
                    let text = Guard::denial(p.key.as_str());
                    work.fails(text)
                },
            },
            ToolCall::SummarizeIssue(p) => match event.into_document() {
                Ok(v) => {
                    let comments = self.comments_in_reply(&v, false);
                    let text = summary_prompt(p.key.as_str(), comments.pretty().as_str());
                    work.ends(Outcome::Prompt { text, comments })
                },
                Err(_) => {
                    let text = Guard::denial(p.key.as_str());
                    work.fails(text)
                },
            },
            ToolCall::IssueHistory(p) => match event.into_document() {
                Ok(v) => {
                    let named = keys_in_changelog(p.key.as_str(), &v);
                    let replies: Vec<Option<Json>> = Vec::new();
                    assert(replies_view(replies@) =~= Seq::empty());
                    self.linked_fetched(work, named, replies, Pending::Changelog(v), now)
                },
                Err(_) => {
                    let text = Guard::denial(p.key.as_str());
                    work.fails(text)
                },
            },
            ToolCall::ListAttachments(p) => match JiraClient::list_attachments_from(
                event.into_document(),
            ) {
                Ok(items) => {
                    let result = keyed(p.key.as_str(), "attachments", Json::Array(items));
                    work.succeeds(result)
                },
                Err(_) => {
                    let text = Guard::denial(p.key.as_str());
                    work.fails(text)
                },
            },
            ToolCall::DownloadAttachment(p) => match JiraClient::list_attachments_from(
                event.into_document(),
            ) {
                Ok(items) => self.downloads(work, items),
                Err(_) => {
                    let text = Guard::denial(p.key.as_str());
                    work.fails(text)
                },
            },
            ToolCall::AddComment(_) => work.reports(event.into_document(), "add_comment failed: "),
            ToolCall::ListTransitions(p) => match event.into_document() {
                Ok(v) => work.succeeds(v),
                Err(_) => {
                    let text = Guard::denial(p.key.as_str());
                    work.fails(text)
                },
            },
            ToolCall::TransitionIssue(p) => {
                let done = ok_json_for(p.key.as_str());
                work.confirms(event.into_change(), done, "transition failed: ")
            },
            ToolCall::AssignIssue(p) => {
                let done = ok_json_for(p.key.as_str());
                work.confirms(event.into_change(), done, "assign failed: ")
            },
            ToolCall::UpdateIssueFields(p) => {
                let done = ok_json_for(p.key.as_str());
                work.confirms(event.into_change(), done, "update failed: ")
            },
            ToolCall::AddWatcher(_) => work.confirms(
                event.into_change(),
                ok_json(),
                "add_watcher failed: ",
            ),
            ToolCall::LinkIssues(_) => work.confirms(
                event.into_change(),
                ok_json(),
                "link failed: ",
            ),
            ToolCall::AddAttachment(_) => work.reports(
                event.into_document(),
                "add_attachment failed: ",
            ),
            _ => work.fails(ClientError::Unexpected.message()),
        }
    }
}

// --- the steps --------------------------------------------------------------

impl JiraKeep {
    /// What follows once the caller is known, or is known to be unknown.
    fn identified(&self, work: Work, now: i64) -> (res: (Run, Step))
        ensures
            (res.0@, res.1@) == identified(self@, work@, now as int),
    {
        match &work.call {
            ToolCall::IssueInfo(p) => {
                let keys = clean_keys(&p.keys);
                self.info_begun(work, keys, now)
            },
            ToolCall::IssuesSearch(p) => {
                let limit = page_limit(p.max_results);
                let query = search_query(p.jql.as_str(), limit, &p.next_page_token, p.start_at);
                self.searches(work, query, limit)
            },
            ToolCall::SearchFilter(p) => {
                let request = self.jira().get_filter(&work.creds, p.filter_id.as_str());
                work.sends(Stage::Filter, request)
            },
            _ => self.gate_begun(work, 0),
        }
    }

    /// Takes the first step of a call. `now` is the time in seconds of the Unix
    /// epoch.
    pub fn start(&self, call: ToolCall, creds: Credentials, now: i64) -> (res: (Run, Step))
        ensures
            (res.0@, res.1@) == begun(self@, fresh(call, creds), now as int),
    {
        let work = Work { call, creds, caller: None, cell: AuditCell::default() };
        assert(work@ == fresh(call, creds));
        match &work.call {
            ToolCall::McpServerInfo => work.succeeds(self.mcp_server_info()),
            ToolCall::IssueUrl(p) => {
                let result = self.issue_url(p.key.as_str());
                work.succeeds(result)
            },
            ToolCall::JiraServerInfo => {
                let request = self.jira().server_info(&work.creds);
                work.sends(Stage::Main, request)
            },
            ToolCall::ListFilters => {
                let request = self.jira().favourite_filters(&work.creds);
                work.sends(Stage::Main, request)
            },
            ToolCall::CreateIssue(_) => self.creates(work, now),
            _ => if self.guard().policy.needs_identity() {
                let request = self.jira().myself(&work.creds);
                work.sends(Stage::Identity, request)
            } else {
                self.identified(work, now)
            },
        }
    }

    /// Reads a reply as what the call waits for.
    fn read_reply(run: &Run, reply: Reply) -> (res: Event)
        ensures
            res@ == event_of(run@, reply@),
    {
        match &run.stage {
            Stage::Download { .. } => Event::Data(JiraClient::data(reply)),
            Stage::Main => match &run.work.call {
                ToolCall::TransitionIssue(_) => Event::Change(
                    JiraClient::send_json_empty_ok(reply),
                ),
                ToolCall::AssignIssue(_) => Event::Change(JiraClient::send_json_empty_ok(reply)),
                ToolCall::UpdateIssueFields(_) => Event::Change(
                    JiraClient::send_json_empty_ok(reply),
                ),
                ToolCall::LinkIssues(_) => Event::Change(JiraClient::send_json_empty_ok(reply)),
                ToolCall::AddWatcher(_) => Event::Change(JiraClient::watcher_added(reply)),
                _ => Event::Document(JiraClient::document(reply)),
            },
            _ => Event::Document(JiraClient::document(reply)),
        }
    }

    /// Takes the next step of a call, given the reply to its last request.
    pub fn resume(&self, run: Run, reply: Reply, now: i64) -> (res: (Run, Step))
        ensures
            (res.0@, res.1@) == resumed(self@, run@, event_of(run@, reply@), now as int),
    {
        let event = JiraKeep::read_reply(&run, reply);
        self.resume_with(run, event, now)
    }

    /// Takes the next step of a call, given what the reply was read as.
    pub fn resume_with(&self, run: Run, event: Event, now: i64) -> (res: (Run, Step))
        ensures
            (res.0@, res.1@) == resumed(self@, run@, event@, now as int),
    {
        proof {
            use_type_invariant(&run);
        }
        let ghost before = run@;
        let Run { work, stage } = run;
        assert(work@ == RunView { stage: StageView::Done, ..before });
        match stage {
            Stage::Identity => {
                let looked_up = match JiraClient::account_id(event.into_document()) {
                    Ok(id) => Some(id),
                    Err(_) => None,
                };
                let mut work = work;
                work.caller = self.guard().resolve_caller(looked_up);
                self.identified(work, now)
            },
            Stage::Gate { index } => self.gate_decided(
                work,
                index,
                reply_document(event.into_document()),
                now,
            ),
            Stage::Main => self.concluded(work, event, now),
            Stage::Filter => self.filter_found(work, event.into_document()),
            Stage::Search { query, limit, retried } => self.search_found(
                work,
                query,
                limit,
                retried,
                event.into_document(),
                now,
            ),
            Stage::Download { meta } => work.downloaded(meta, event.into_data()),
            Stage::Keys { keys, replies } => {
                let replies = with_document(replies, event.into_document());
                self.info_fetched(work, keys, replies, now)
            },
            Stage::Full { info, access, body } => self.full_found(
                work,
                info,
                access,
                body,
                event.into_document(),
                now,
            ),
            Stage::Linked { named, replies, pending } => {
                let replies = with_document(replies, event.into_document());
                self.linked_fetched(work, named, replies, pending, now)
            },
            Stage::Done => work.fails(ClientError::Unexpected.message()),
        }
    }
}

/// What a fetch came to: the document, or nothing.
fn reply_document(outcome: Result<Json, ClientError>) -> (res: Option<Json>)
    ensures
        optional_json(res) == fetched(document_view(outcome)),
{
    match outcome {
        Ok(v) => Some(v),
        Err(_) => None,
    }
}

/// One more fetch.
fn with_document(replies: Vec<Option<Json>>, outcome: Result<Json, ClientError>) -> (res: Vec<
    Option<Json>,
>)
    ensures
        res@.len() == replies@.len() + 1,
        replies_view(res@) == replies_view(replies@).push(fetched(document_view(outcome))),
{
    let ghost before = replies_view(replies@);
    let mut replies = replies;
    replies.push(reply_document(outcome));
    assert(replies_view(replies@) =~= before.push(fetched(document_view(outcome))));
    replies
}

} // verus!
