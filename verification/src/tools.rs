//! The tools: their names, their parameters, and which of them are offered.

use vstd::prelude::*;
use vstd::string::*;

use crate::guard::contains_text;
use crate::json::Json;
use crate::keyset::texts;
use crate::meta::optional_text;
use crate::policy::{Policy, PolicyView};
use crate::text::same_text;

verus! {

/// A tool, in the order of the names.
#[derive(Debug, Clone, Copy, PartialEq, Eq, Structural)]
pub enum Tool {
    /// Write: uploads an attachment.
    AddAttachment,
    /// Write: adds a comment.
    AddComment,
    /// Write: adds a watcher.
    AddWatcher,
    /// Write: changes the assignee.
    AssignIssue,
    /// Write: files an issue.
    CreateIssue,
    /// Content of an attachment.
    DownloadAttachment,
    /// Comments of an issue.
    IssueComments,
    /// Changelog of an issue.
    IssueHistory,
    /// Details of issues.
    IssueInfo,
    /// Browse URL of an issue, built locally.
    IssueUrl,
    /// JQL search.
    IssuesSearch,
    /// Facts about the Jira site.
    JiraServerInfo,
    /// Write: links two issues.
    LinkIssues,
    /// Attachment metadata of an issue.
    ListAttachments,
    /// The caller's favourite filters.
    ListFilters,
    /// Transitions that an issue can take.
    ListTransitions,
    /// Coarse facts about the server and its policy.
    McpServerInfo,
    /// Search by a saved filter.
    SearchFilter,
    /// Prompt for a summary of an issue's comments.
    SummarizeIssue,
    /// Write: takes a transition.
    TransitionIssue,
    /// Write: changes fields.
    UpdateIssueFields,
}

/// Every tool, in the order of the names.
pub open spec fn all_tools() -> Seq<Tool> {
    seq![
        Tool::AddAttachment,
        Tool::AddComment,
        Tool::AddWatcher,
        Tool::AssignIssue,
        Tool::CreateIssue,
        Tool::DownloadAttachment,
        Tool::IssueComments,
        Tool::IssueHistory,
        Tool::IssueInfo,
        Tool::IssueUrl,
        Tool::IssuesSearch,
        Tool::JiraServerInfo,
        Tool::LinkIssues,
        Tool::ListAttachments,
        Tool::ListFilters,
        Tool::ListTransitions,
        Tool::McpServerInfo,
        Tool::SearchFilter,
        Tool::SummarizeIssue,
        Tool::TransitionIssue,
        Tool::UpdateIssueFields,
    ]
}

/// The tool by that name.
pub open spec fn tool_named(name: Seq<char>) -> Option<Tool> {
    if name == "add_attachment"@ {
        Some(Tool::AddAttachment)
    } else if name == "add_comment"@ {
        Some(Tool::AddComment)
    } else if name == "add_watcher"@ {
        Some(Tool::AddWatcher)
    } else if name == "assign_issue"@ {
        Some(Tool::AssignIssue)
    } else if name == "create_issue"@ {
        Some(Tool::CreateIssue)
    } else if name == "download_attachment"@ {
        Some(Tool::DownloadAttachment)
    } else if name == "issue_comments"@ {
        Some(Tool::IssueComments)
    } else if name == "issue_history"@ {
        Some(Tool::IssueHistory)
    } else if name == "issue_info"@ {
        Some(Tool::IssueInfo)
    } else if name == "issue_url"@ {
        Some(Tool::IssueUrl)
    } else if name == "issues_search"@ {
        Some(Tool::IssuesSearch)
    } else if name == "jira_server_info"@ {
        Some(Tool::JiraServerInfo)
    } else if name == "link_issues"@ {
        Some(Tool::LinkIssues)
    } else if name == "list_attachments"@ {
        Some(Tool::ListAttachments)
    } else if name == "list_filters"@ {
        Some(Tool::ListFilters)
    } else if name == "list_transitions"@ {
        Some(Tool::ListTransitions)
    } else if name == "mcp_server_info"@ {
        Some(Tool::McpServerInfo)
    } else if name == "search_filter"@ {
        Some(Tool::SearchFilter)
    } else if name == "summarize_issue"@ {
        Some(Tool::SummarizeIssue)
    } else if name == "transition_issue"@ {
        Some(Tool::TransitionIssue)
    } else if name == "update_issue_fields"@ {
        Some(Tool::UpdateIssueFields)
    } else {
        None
    }
}

impl Tool {
    /// The name of the tool.
    pub open spec fn word(self) -> Seq<char> {
        match self {
            Tool::AddAttachment => "add_attachment"@,
            Tool::AddComment => "add_comment"@,
            Tool::AddWatcher => "add_watcher"@,
            Tool::AssignIssue => "assign_issue"@,
            Tool::CreateIssue => "create_issue"@,
            Tool::DownloadAttachment => "download_attachment"@,
            Tool::IssueComments => "issue_comments"@,
            Tool::IssueHistory => "issue_history"@,
            Tool::IssueInfo => "issue_info"@,
            Tool::IssueUrl => "issue_url"@,
            Tool::IssuesSearch => "issues_search"@,
            Tool::JiraServerInfo => "jira_server_info"@,
            Tool::LinkIssues => "link_issues"@,
            Tool::ListAttachments => "list_attachments"@,
            Tool::ListFilters => "list_filters"@,
            Tool::ListTransitions => "list_transitions"@,
            Tool::McpServerInfo => "mcp_server_info"@,
            Tool::SearchFilter => "search_filter"@,
            Tool::SummarizeIssue => "summarize_issue"@,
            Tool::TransitionIssue => "transition_issue"@,
            Tool::UpdateIssueFields => "update_issue_fields"@,
        }
    }

    /// The tools that change Jira state.
    pub open spec fn writes(self) -> bool {
        match self {
            Tool::AddComment
            | Tool::TransitionIssue
            | Tool::AssignIssue
            | Tool::UpdateIssueFields
            | Tool::AddWatcher
            | Tool::LinkIssues
            | Tool::CreateIssue
            | Tool::AddAttachment => true,
            _ => false,
        }
    }

    /// Whether the tool sends a request, so that it needs credentials.
    pub fn needs_credentials(self) -> (res: bool)
        ensures
            res == !(self is McpServerInfo || self is IssueUrl),
    {
        match self {
            Tool::McpServerInfo | Tool::IssueUrl => false,
            _ => true,
        }
    }

    /// The place in the order of the names.
    pub open spec fn rank(self) -> int {
        match self {
            Tool::AddAttachment => 0,
            Tool::AddComment => 1,
            Tool::AddWatcher => 2,
            Tool::AssignIssue => 3,
            Tool::CreateIssue => 4,
            Tool::DownloadAttachment => 5,
            Tool::IssueComments => 6,
            Tool::IssueHistory => 7,
            Tool::IssueInfo => 8,
            Tool::IssueUrl => 9,
            Tool::IssuesSearch => 10,
            Tool::JiraServerInfo => 11,
            Tool::LinkIssues => 12,
            Tool::ListAttachments => 13,
            Tool::ListFilters => 14,
            Tool::ListTransitions => 15,
            Tool::McpServerInfo => 16,
            Tool::SearchFilter => 17,
            Tool::SummarizeIssue => 18,
            Tool::TransitionIssue => 19,
            Tool::UpdateIssueFields => 20,
        }
    }

    /// The name of the tool.
    pub fn name(self) -> (res: &'static str)
        ensures
            res@ == self.word(),
    {
        match self {
            Tool::AddAttachment => "add_attachment",
            Tool::AddComment => "add_comment",
            Tool::AddWatcher => "add_watcher",
            Tool::AssignIssue => "assign_issue",
            Tool::CreateIssue => "create_issue",
            Tool::DownloadAttachment => "download_attachment",
            Tool::IssueComments => "issue_comments",
            Tool::IssueHistory => "issue_history",
            Tool::IssueInfo => "issue_info",
            Tool::IssueUrl => "issue_url",
            Tool::IssuesSearch => "issues_search",
            Tool::JiraServerInfo => "jira_server_info",
            Tool::LinkIssues => "link_issues",
            Tool::ListAttachments => "list_attachments",
            Tool::ListFilters => "list_filters",
            Tool::ListTransitions => "list_transitions",
            Tool::McpServerInfo => "mcp_server_info",
            Tool::SearchFilter => "search_filter",
            Tool::SummarizeIssue => "summarize_issue",
            Tool::TransitionIssue => "transition_issue",
            Tool::UpdateIssueFields => "update_issue_fields",
        }
    }

    /// Whether the tool changes Jira state.
    pub fn is_write(self) -> (res: bool)
        ensures
            res == self.writes(),
    {
        match self {
            Tool::AddComment
            | Tool::TransitionIssue
            | Tool::AssignIssue
            | Tool::UpdateIssueFields
            | Tool::AddWatcher
            | Tool::LinkIssues
            | Tool::CreateIssue
            | Tool::AddAttachment => true,
            _ => false,
        }
    }

    /// The tool by that name.
    pub fn from_name(name: &str) -> (res: Option<Tool>)
        ensures
            res == tool_named(name@),
    {
        if same_text(name, "add_attachment") {
            Some(Tool::AddAttachment)
        } else if same_text(name, "add_comment") {
            Some(Tool::AddComment)
        } else if same_text(name, "add_watcher") {
            Some(Tool::AddWatcher)
        } else if same_text(name, "assign_issue") {
            Some(Tool::AssignIssue)
        } else if same_text(name, "create_issue") {
            Some(Tool::CreateIssue)
        } else if same_text(name, "download_attachment") {
            Some(Tool::DownloadAttachment)
        } else if same_text(name, "issue_comments") {
            Some(Tool::IssueComments)
        } else if same_text(name, "issue_history") {
            Some(Tool::IssueHistory)
        } else if same_text(name, "issue_info") {
            Some(Tool::IssueInfo)
        } else if same_text(name, "issue_url") {
            Some(Tool::IssueUrl)
        } else if same_text(name, "issues_search") {
            Some(Tool::IssuesSearch)
        } else if same_text(name, "jira_server_info") {
            Some(Tool::JiraServerInfo)
        } else if same_text(name, "link_issues") {
            Some(Tool::LinkIssues)
        } else if same_text(name, "list_attachments") {
            Some(Tool::ListAttachments)
        } else if same_text(name, "list_filters") {
            Some(Tool::ListFilters)
        } else if same_text(name, "list_transitions") {
            Some(Tool::ListTransitions)
        } else if same_text(name, "mcp_server_info") {
            Some(Tool::McpServerInfo)
        } else if same_text(name, "search_filter") {
            Some(Tool::SearchFilter)
        } else if same_text(name, "summarize_issue") {
            Some(Tool::SummarizeIssue)
        } else if same_text(name, "transition_issue") {
            Some(Tool::TransitionIssue)
        } else if same_text(name, "update_issue_fields") {
            Some(Tool::UpdateIssueFields)
        } else {
            None
        }
    }

    /// Every tool, in the order of the names.
    pub fn all() -> (res: Vec<Tool>)
        ensures
            res@ == all_tools(),
            forall|t: Tool| #[trigger] res@.contains(t),
    {
        let res: Vec<Tool> = vec![
            Tool::AddAttachment,
            Tool::AddComment,
            Tool::AddWatcher,
            Tool::AssignIssue,
            Tool::CreateIssue,
            Tool::DownloadAttachment,
            Tool::IssueComments,
            Tool::IssueHistory,
            Tool::IssueInfo,
            Tool::IssueUrl,
            Tool::IssuesSearch,
            Tool::JiraServerInfo,
            Tool::LinkIssues,
            Tool::ListAttachments,
            Tool::ListFilters,
            Tool::ListTransitions,
            Tool::McpServerInfo,
            Tool::SearchFilter,
            Tool::SummarizeIssue,
            Tool::TransitionIssue,
            Tool::UpdateIssueFields,
        ];
        assert(res@ =~= all_tools());
        assert forall|t: Tool| #[trigger] res@.contains(t) by {
            assert(res@[t.rank()] == t);
        }
        res
    }
}

// --- the offer --------------------------------------------------------------

/// A tool is offered: not where it writes in read-only mode, and not where it
/// is disabled.
pub open spec fn offered(policy: PolicyView, tool: Tool) -> bool {
    !(policy.global.read_only && tool.writes()) && !policy.global.disabled_tools.contains(
        tool.word(),
    )
}

/// A tool that a policy offers.
pub open spec fn offered_by(policy: PolicyView) -> spec_fn(Tool) -> bool {
    |tool: Tool| offered(policy, tool)
}

/// The tools that are offered, in the order of the names.
pub open spec fn offer(policy: PolicyView) -> Seq<Tool> {
    all_tools().filter(offered_by(policy))
}

/// The first of some names that is the name of no tool.
pub open spec fn first_unknown(names: Seq<Seq<char>>) -> Option<Seq<char>>
    decreases names.len(),
{
    if names.len() == 0 {
        None
    } else if tool_named(names[0]) is None {
        Some(names[0])
    } else {
        first_unknown(names.drop_first())
    }
}

/// The tools that a policy offers, in the order of the names.
pub fn list_tools(policy: &Policy) -> (res: Vec<Tool>)
    ensures
        res@ == offer(policy@),
{
    let all = Tool::all();
    let ghost keep = offered_by(policy@);
    let mut kept: Vec<Tool> = Vec::new();
    let mut i: usize = 0;
    proof {
        reveal(Seq::filter);
        assert(all@.take(0) =~= Seq::empty());
    }
    while i < all.len()
        invariant
            i <= all.len(),
            keep == offered_by(policy@),
            kept@ == all@.take(i as int).filter(keep),
        decreases all.len() - i,
    {
        let tool = all[i];
        proof {
            assert(all@.take(i + 1).drop_last() =~= all@.take(i as int));
            assert(all@.take(i + 1).last() == tool);
            reveal(Seq::filter);
        }
        if !(policy.global.read_only && tool.is_write()) && !contains_text(
            &policy.global.disabled_tools,
            tool.name(),
        ) {
            kept.push(tool);
        }
        i += 1;
    }
    assert(all@.take(all@.len() as int) =~= all@);
    kept
}

/// The first of some names that is the name of no tool.
pub fn find_unknown(names: &Vec<String>) -> (res: Option<String>)
    ensures
        optional_text(res) == first_unknown(texts(names@)),
{
    let ghost all = texts(names@);
    let mut i: usize = 0;
    assert(all.skip(0) =~= all);
    while i < names.len()
        invariant
            i <= names.len(),
            all == texts(names@),
            first_unknown(all) == first_unknown(all.skip(i as int)),
        decreases names.len() - i,
    {
        proof {
            assert(all.skip(i as int)[0] == names@[i as int]@);
            assert(all.skip(i as int).drop_first() =~= all.skip(i + 1));
        }
        if Tool::from_name(names[i].as_str()).is_none() {
            return Some(names[i].clone());
        }
        i += 1;
    }
    None
}

/// In read-only mode no tool is offered that writes, and a disabled tool is
/// never offered; every other is.
pub proof fn write_tools_vanish_in_read_only_mode(policy: PolicyView, tool: Tool)
    ensures
        offer(policy).contains(tool) <==> offered(policy, tool),
        policy.global.read_only && tool.writes() ==> !offer(policy).contains(tool),
        policy.global.disabled_tools.contains(tool.word()) ==> !offer(policy).contains(tool),
{
    let keep = offered_by(policy);
    assert(all_tools()[tool.rank()] == tool);
    if offered(policy, tool) {
        all_tools().lemma_filter_contains(keep, tool.rank());
    }
    if offer(policy).contains(tool) {
        let i = choose|i: int| 0 <= i < offer(policy).len() && offer(policy)[i] == tool;
        all_tools().lemma_filter_pred(keep, i);
    }
}

// --- parameters -------------------------------------------------------------

pub struct IssueKeysParams {
    /// Issue keys, as in `PROJ-123`.
    pub keys: Vec<String>,
}

pub struct IssueKeyParams {
    pub key: String,
}

pub struct IssueCommentsParams {
    pub key: String,
    pub include_restricted: bool,
    pub max_results: u32,
}

/// The number of results where none is given.
pub fn default_max() -> (res: u32)
    ensures
        res == 50,
{
    50
}

pub struct IssueHistoryParams {
    pub key: String,
    pub max_results: u32,
}

pub struct SearchParams {
    /// The query.
    pub jql: String,
    pub max_results: u32,
    pub next_page_token: Option<String>,
    pub start_at: Option<u32>,
}

pub struct SearchFilterParams {
    /// Id of the saved filter.
    pub filter_id: String,
    pub max_results: u32,
    pub next_page_token: Option<String>,
    pub start_at: Option<u32>,
}

pub struct AddCommentParams {
    pub key: String,
    pub body: String,
}

pub struct TransitionParams {
    pub key: String,
    pub transition_id: String,
    pub comment: Option<String>,
}

pub struct AssignParams {
    pub key: String,
    /// Account id to assign; none to unassign.
    pub account_id: Option<String>,
}

pub struct UpdateFieldsParams {
    pub key: String,
    /// The fields object.
    pub fields: Json,
}

pub struct WatcherParams {
    pub key: String,
    pub account_id: String,
}

pub struct LinkParams {
    pub link_type: String,
    pub inward_key: String,
    pub outward_key: String,
}

pub struct CreateIssueParams {
    pub project_key: String,
    pub summary: String,
    pub issue_type: String,
    pub description: Option<String>,
    pub labels: Option<Vec<String>>,
    pub components: Option<Vec<String>>,
    pub priority: Option<String>,
}

pub struct AddAttachmentParams {
    pub key: String,
    pub filename: String,
    /// The content of the file in Base64.
    pub content_base64: String,
}

pub struct DownloadAttachmentParams {
    pub key: String,
    /// Attachment id, as the attachment metadata tells it.
    pub attachment_id: String,
}

/// A call of a tool.
pub enum ToolCall {
    AddAttachment(AddAttachmentParams),
    AddComment(AddCommentParams),
    AddWatcher(WatcherParams),
    AssignIssue(AssignParams),
    CreateIssue(CreateIssueParams),
    DownloadAttachment(DownloadAttachmentParams),
    IssueComments(IssueCommentsParams),
    IssueHistory(IssueHistoryParams),
    IssueInfo(IssueKeysParams),
    IssueUrl(IssueKeyParams),
    IssuesSearch(SearchParams),
    JiraServerInfo,
    LinkIssues(LinkParams),
    ListAttachments(IssueKeyParams),
    ListFilters,
    ListTransitions(IssueKeyParams),
    McpServerInfo,
    SearchFilter(SearchFilterParams),
    SummarizeIssue(IssueKeyParams),
    TransitionIssue(TransitionParams),
    UpdateIssueFields(UpdateFieldsParams),
}

impl ToolCall {
    /// The tool that is called.
    pub open spec fn tool_of(self) -> Tool {
        match self {
            ToolCall::AddAttachment(_) => Tool::AddAttachment,
            ToolCall::AddComment(_) => Tool::AddComment,
            ToolCall::AddWatcher(_) => Tool::AddWatcher,
            ToolCall::AssignIssue(_) => Tool::AssignIssue,
            ToolCall::CreateIssue(_) => Tool::CreateIssue,
            ToolCall::DownloadAttachment(_) => Tool::DownloadAttachment,
            ToolCall::IssueComments(_) => Tool::IssueComments,
            ToolCall::IssueHistory(_) => Tool::IssueHistory,
            ToolCall::IssueInfo(_) => Tool::IssueInfo,
            ToolCall::IssueUrl(_) => Tool::IssueUrl,
            ToolCall::IssuesSearch(_) => Tool::IssuesSearch,
            ToolCall::JiraServerInfo => Tool::JiraServerInfo,
            ToolCall::LinkIssues(_) => Tool::LinkIssues,
            ToolCall::ListAttachments(_) => Tool::ListAttachments,
            ToolCall::ListFilters => Tool::ListFilters,
            ToolCall::ListTransitions(_) => Tool::ListTransitions,
            ToolCall::McpServerInfo => Tool::McpServerInfo,
            ToolCall::SearchFilter(_) => Tool::SearchFilter,
            ToolCall::SummarizeIssue(_) => Tool::SummarizeIssue,
            ToolCall::TransitionIssue(_) => Tool::TransitionIssue,
            ToolCall::UpdateIssueFields(_) => Tool::UpdateIssueFields,
        }
    }

    /// The tool that is called.
    pub fn tool(&self) -> (res: Tool)
        ensures
            res == self.tool_of(),
    {
        match self {
            ToolCall::AddAttachment(_) => Tool::AddAttachment,
            ToolCall::AddComment(_) => Tool::AddComment,
            ToolCall::AddWatcher(_) => Tool::AddWatcher,
            ToolCall::AssignIssue(_) => Tool::AssignIssue,
            ToolCall::CreateIssue(_) => Tool::CreateIssue,
            ToolCall::DownloadAttachment(_) => Tool::DownloadAttachment,
            ToolCall::IssueComments(_) => Tool::IssueComments,
            ToolCall::IssueHistory(_) => Tool::IssueHistory,
            ToolCall::IssueInfo(_) => Tool::IssueInfo,
            ToolCall::IssueUrl(_) => Tool::IssueUrl,
            ToolCall::IssuesSearch(_) => Tool::IssuesSearch,
            ToolCall::JiraServerInfo => Tool::JiraServerInfo,
            ToolCall::LinkIssues(_) => Tool::LinkIssues,
            ToolCall::ListAttachments(_) => Tool::ListAttachments,
            ToolCall::ListFilters => Tool::ListFilters,
            ToolCall::ListTransitions(_) => Tool::ListTransitions,
            ToolCall::McpServerInfo => Tool::McpServerInfo,
            ToolCall::SearchFilter(_) => Tool::SearchFilter,
            ToolCall::SummarizeIssue(_) => Tool::SummarizeIssue,
            ToolCall::TransitionIssue(_) => Tool::TransitionIssue,
            ToolCall::UpdateIssueFields(_) => Tool::UpdateIssueFields,
        }
    }
}

} // verus!
