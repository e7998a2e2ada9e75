//! What a call needs leave for: each tool acts on an issue only where the policy
//! gives the caller the capability for it, and acts where it does.

use vstd::prelude::*;
use vstd::string::*;

use crate::encoding::base64_bytes;
use crate::flow::{
    gate_begun, gate_noted, gate_entry, gate_passed, gates, proceeds, resumed, OutcomeView,
    RunView, StageView, StepView, Trace,
};
use crate::guard::fetch_list;
use crate::json::JsonView;
use crate::keyset::texts;
use crate::laws::{acts, assessment_comes_first, lemma_gate_then_next, passed_at};
use crate::meta::{meta_of, LevelView, MetaView};
use crate::outcomes::asked_at;
use crate::policy::{decide, Capability, Operation, PolicyView};
use crate::requests::{a_run_keeps_its_call, of_a_file, small_enough};
use crate::server::KeepView;
use crate::text::trimmed;
use crate::tools::{CreateIssueParams, ToolCall};

verus! {

/// The issues that a tool acts on, each with the capability that it takes.
pub open spec fn needs(call: ToolCall) -> Seq<(Seq<char>, Capability)> {
    match call {
        ToolCall::IssueComments(p) => seq![(p.key@, Capability::Comments)],
        ToolCall::SummarizeIssue(p) => seq![(p.key@, Capability::Comments)],
        ToolCall::IssueHistory(p) => seq![(p.key@, Capability::History)],
        ToolCall::ListAttachments(p) => seq![(p.key@, Capability::Attachments)],
        ToolCall::DownloadAttachment(p) => seq![(p.key@, Capability::Attachments)],
        ToolCall::ListTransitions(p) => seq![(p.key@, Capability::Read)],
        ToolCall::AddComment(p) => seq![(p.key@, Capability::Comment)],
        ToolCall::TransitionIssue(p) => seq![(p.key@, Capability::Status)],
        ToolCall::AssignIssue(p) => seq![(p.key@, Capability::Assign)],
        ToolCall::UpdateIssueFields(p) => seq![(p.key@, Capability::Fields)],
        ToolCall::AddWatcher(p) => seq![(p.key@, Capability::Watchers)],
        ToolCall::AddAttachment(p) => seq![(p.key@, Capability::Attach)],
        ToolCall::LinkIssues(p) => seq![
            (p.inward_key@, Capability::Links),
            (p.outward_key@, Capability::Summary),
        ],
        _ => Seq::empty(),
    }
}

/// With input `j` the issue `key` came, as it was asked for, and the policy lets
/// the caller do `cap` with it.
pub open spec fn let_through(trace: Trace, j: int, key: Seq<char>, cap: Capability) -> bool {
    &&& asked_at(trace, j, key)
    &&& trace.document(j) matches Some(issue)
    &&& decide(
        trace.keep.policy,
        meta_of(
            issue,
            trace.after(j).0.caller,
            trace.keep.policy.global.public_projects,
        ),
        trace.inputs[j].1,
        Operation::Access,
    ).allows(cap)
}

pub(crate) proof fn lemma_needs(call: ToolCall)
    ensures
        gates(call) == needs(call),
{
}

/// What a gate goes by, said of the run.
pub(crate) proof fn lemma_passed(trace: Trace, i: int, j: int)
    requires
        0 <= j < trace.inputs.len(),
        of_a_file(trace.keep),
        trace.after(j).0.stage == (StageView::Gate { index: i }),
        0 <= i < needs(trace.call).len(),
        trimmed(needs(trace.call)[i].0) == needs(trace.call)[i].0,
    ensures
        gate_passed(
            trace.keep,
            trace.after(j).0,
            i,
            trace.document(j),
            trace.inputs[j].1,
        ) == let_through(trace, j, needs(trace.call)[i].0, needs(trace.call)[i].1),
{
    lemma_needs(trace.call);
    a_run_keeps_its_call(trace, j);
    crate::requests::lemma_gate_asks(trace, j, i);
    let key = needs(trace.call)[i].0;
    reveal_with_fuel(crate::guard::distinct_keys, 2);
    assert(seq![key].drop_last() =~= Seq::<Seq<char>>::empty());
    assert(seq![key].last() == key);
    let wanted = fetch_list(seq![key]);
    if key.len() > 0 {
        assert(wanted =~= seq![key]);
        assert(wanted[0] == key);
        assert(wanted.contains(key));
        assert(trimmed(seq![key][0]) == key);
        assert(wanted.index_of(key) == 0);
    } else {
        crate::requests::lemma_gate_key(trace, j, i);
    }
}

/// A key with white space around it passes nothing.
proof fn lemma_loose_key(trace: Trace, i: int, j: int)
    requires
        trace.after(j).0.call == trace.call,
        0 <= i < needs(trace.call).len(),
        gate_passed(
            trace.keep,
            trace.after(j).0,
            i,
            trace.document(j),
            trace.inputs[j].1,
        ),
    ensures
        trimmed(needs(trace.call)[i].0) == needs(trace.call)[i].0,
{
    lemma_needs(trace.call);
    let key = needs(trace.call)[i].0;
    let x = choose|x: int| 0 <= x < seq![key].len() && trimmed(#[trigger] seq![key][x]) == key;
}

/// A tool shows something of an issue, or sends its request, only where the
/// policy gives the caller the capability that the tool takes, on each of the
/// issues that it acts on: the site was asked for the issue, and what came is
/// what the policy went by.
pub proof fn a_tool_acts_only_with_leave(trace: Trace, n: int, i: int)
    requires
        0 <= n <= trace.inputs.len(),
        of_a_file(trace.keep),
        0 <= i < needs(trace.call).len(),
        acts(trace.after(n)),
    ensures
        exists|j: int|
            0 <= j < n && #[trigger] let_through(
                trace,
                j,
                needs(trace.call)[i].0,
                needs(trace.call)[i].1,
            ),
{
    lemma_needs(trace.call);
    assessment_comes_first(trace, n, i);
    let j = choose|j: int| 0 <= j < n && #[trigger] passed_at(trace, i, j);
    a_run_keeps_its_call(trace, j);
    lemma_loose_key(trace, i, j);
    lemma_passed(trace, i, j);
    assert(let_through(trace, j, needs(trace.call)[i].0, needs(trace.call)[i].1));
}

/// The fields that no general update may set.
pub open spec fn governed(name: Seq<char>) -> bool {
    name == "assignee"@ || name == "resolution"@ || name == "parent"@ || name == "security"@ || name
        == "project"@ || name == "reporter"@
}

/// What a call gives cannot be sent: fields that are no object or set one that
/// no general update may set, content that is not base64, or too much of it.
pub open spec fn unfit(keep: KeepView, call: ToolCall) -> bool {
    match call {
        ToolCall::UpdateIssueFields(p) => match p.fields@ {
            JsonView::Object(fields) => exists|name: Seq<char>| #[trigger]
                governed(name) && fields.dom().contains(name),
            _ => true,
        },
        ToolCall::AddAttachment(p) => match base64_bytes(trimmed(p.content_base64@)) {
            Some(data) => !small_enough(keep, data.len() as int),
            None => true,
        },
        _ => false,
    }
}

proof fn lemma_unfit(keep: KeepView, run: RunView)
    requires
        needs(run.call).len() > 0,
    ensures
        proceeds(keep, run).0.stage is Main <==> !unfit(keep, run.call),
        proceeds(keep, run).1 is Call <==> !unfit(keep, run.call),
        unfit(keep, run.call) ==> proceeds(keep, run).1 matches StepView::Finish(
            OutcomeView::Failure(_),
        ),
{
    if let ToolCall::UpdateIssueFields(p) = run.call {
        if let JsonView::Object(fields) = p.fields@ {
            if let Some(name) = crate::flow::refused_field(fields) {
                assert(governed(name) && fields.dom().contains(name));
            }
            if exists|name: Seq<char>| #[trigger]
                governed(name) && fields.dom().contains(name) {
                let name = choose|name: Seq<char>| #[trigger]
                    governed(name) && fields.dom().contains(name);
                assert(crate::flow::refused_field(fields) is Some);
            }
        }
    }
}

/// Where the policy gives the caller leave on the last of the issues that a tool
/// acts on, its request is sent, unless what the call gives cannot be; where it
/// does not on any of them, the call ends with the one text that tells nothing.
pub proof fn leave_is_all_that_a_tool_waits_for(trace: Trace, n: int, i: int)
    requires
        0 <= n < trace.inputs.len(),
        of_a_file(trace.keep),
        trace.after(n).0.stage == (StageView::Gate { index: i }),
        0 <= i < needs(trace.call).len(),
        trimmed(needs(trace.call)[i].0) == needs(trace.call)[i].0,
    ensures
        ({
            let (key, cap) = needs(trace.call)[i];
            let after = trace.after(n + 1);
            if !let_through(trace, n, key, cap) {
                after.1 == StepView::Finish(
                    OutcomeView::Failure(
                        "Issue "@ + key + " is not accessible through this server"@,
                    ),
                )
            } else if i == needs(trace.call).len() - 1 {
                &&& after.1 is Call <==> !unfit(trace.keep, trace.call)
                &&& after.0.stage is Main <==> !unfit(trace.keep, trace.call)
            } else {
                after.0.stage == (StageView::Gate { index: i + 1 }) || trimmed(
                    needs(trace.call)[i + 1].0,
                ).len() == 0
            }
        }),
{
    lemma_needs(trace.call);
    a_run_keeps_its_call(trace, n);
    lemma_passed(trace, i, n);
    let keep = trace.keep;
    let run = trace.after(n).0;
    let (event, now) = trace.inputs[n];
    assert(trace.after(n + 1) == resumed(keep, run, event, now));
    lemma_gate_then_next(keep, run, event, now, i);
    if let_through(trace, n, needs(trace.call)[i].0, needs(trace.call)[i].1) {
        let idle = RunView { stage: StageView::Done, ..run };
        let noted = gate_noted(
            idle,
            gate_entry(keep, idle, i, trace.document(n), now),
            true,
        );
        assert(trace.after(n + 1) == gate_begun(keep, noted, i + 1));
        if i == needs(trace.call).len() - 1 {
            lemma_unfit(keep, noted);
        } else {
            let key = needs(trace.call)[i + 1].0;
            reveal_with_fuel(crate::guard::distinct_keys, 2);
            assert(seq![key].drop_last() =~= Seq::<Seq<char>>::empty());
            assert(seq![key].last() == key);
        }
    }
}

/// A tool that acts on issues begins with the first of them, once the caller is
/// known where that is wanted; with a blank key it ends at once.
pub proof fn a_tool_begins_with_its_first_issue(trace: Trace)
    requires
        of_a_file(trace.keep),
        needs(trace.call).len() > 0,
        trace.inputs.len() > 0,
    ensures
        ({
            let n: int = if crate::requests::asks_who(trace.keep.policy) {
                1
            } else {
                0
            };
            let key = needs(trace.call)[0].0;
            if trimmed(key).len() == 0 {
                trace.after(n).1 == StepView::Finish(
                    OutcomeView::Failure(
                        "Issue "@ + key + " is not accessible through this server"@,
                    ),
                )
            } else {
                trace.after(n).0.stage == (StageView::Gate { index: 0 }) && asked_at(
                    trace,
                    n,
                    trimmed(key),
                )
            }
        }),
{
    lemma_needs(trace.call);
    let key = needs(trace.call)[0].0;
    reveal_with_fuel(crate::guard::distinct_keys, 2);
    reveal_with_fuel(Trace::after, 3);
    assert(seq![key].drop_last() =~= Seq::<Seq<char>>::empty());
    assert(seq![key].last() == key);
    assert(crate::requests::asks_who(trace.keep.policy) == crate::policy::asks_identity(
        trace.keep.policy,
    ));
    let n: int = if crate::requests::asks_who(trace.keep.policy) {
        1
    } else {
        0
    };
    a_run_keeps_its_call(trace, 0);
    if trimmed(key).len() > 0 {
        assert(fetch_list(seq![key]).len() == 1);
        assert(trace.after(n).0.stage == (StageView::Gate { index: 0 }));
        crate::requests::lemma_gate_asks(trace, n, 0);
    }
}

// --- filing an issue --------------------------------------------------------

/// What is known of an issue that is about to be filed: what the call tells of
/// it, and that the caller files it. What the call does not tell is not known.
pub open spec fn known_of_a_new_issue(keep: KeepView, p: CreateIssueParams) -> MetaView {
    MetaView {
        project: Some(p.project_key@),
        summary: Some(p.summary@),
        status: None,
        priority: match p.priority {
            Some(name) => Some(name@),
            None => None,
        },
        issue_type: Some(p.issue_type@),
        labels: match p.labels {
            Some(list) => Some(texts(list@)),
            None => None,
        },
        components: match p.components {
            Some(list) => Some(texts(list@)),
            None => None,
        },
        security: LevelView::Unreadable,
        created: None,
        created_by_me: Some(true),
        public_projects: keep.policy.global.public_projects,
    }
}

/// An issue is filed exactly where the policy, going by what the call tells of
/// the issue, gives the caller leave to create it; the call ends at once with an
/// error text where it does not.
pub proof fn an_issue_is_filed_only_with_leave(trace: Trace)
    requires
        trace.call is CreateIssue,
    ensures
        ({
            let p = trace.call->CreateIssue_0;
            if decide(
                trace.keep.policy,
                known_of_a_new_issue(trace.keep, p),
                trace.start,
                Operation::Create,
            ).allows(Capability::Create) {
                trace.after(0).0.stage is Main && trace.after(0).1 is Call
            } else {
                trace.after(0).1 == StepView::Finish(
                    OutcomeView::Failure(
                        "Issue create in project "@ + p.project_key@
                            + " is not permitted by policy"@,
                    ),
                )
            }
        }),
{
    let p = trace.call->CreateIssue_0;
    assert(crate::guard::prospective(
        trace.keep.policy,
        crate::flow::creation_meta(trace.keep.policy, p),
    ) == known_of_a_new_issue(trace.keep, p));
}

/// An issue that is about to be filed is the caller's, whatever else is known of
/// it; the projects that are public are those of the policy; and all that is
/// known of it counts.
pub proof fn a_new_issue_is_the_callers(policy: PolicyView, meta: MetaView)
    ensures
        ({
            let known = crate::guard::prospective(policy, meta);
            &&& known.created_by_me == Some(true)
            &&& known.public_projects == policy.global.public_projects
            &&& known.project == meta.project && known.summary == meta.summary
            &&& known.status == meta.status && known.priority == meta.priority
            &&& known.issue_type == meta.issue_type && known.labels == meta.labels
            &&& known.components == meta.components && known.security == meta.security
            &&& known.created == meta.created
        }),
{
}

/// An attachment passes where there is no limit, or its size is known and is not
/// over it.
pub proof fn a_limit_is_kept(policy: PolicyView, size: int)
    ensures
        crate::guard::within_limit(policy, Some(size)) <==> policy.global.max_attachment_bytes == 0
            || size <= policy.global.max_attachment_bytes,
        crate::guard::within_limit(policy, None) <==> policy.global.max_attachment_bytes == 0,
{
}

} // verus!
