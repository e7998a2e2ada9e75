//! What holds of every run of the tools.

use vstd::prelude::*;
use vstd::string::*;

use crate::client::Credentials;
use crate::flow::{
    begun, changelog_keys, comments_in, comments_served, concluded, creation_allowed,
    creation_meta, disclosed_keys, fetched, fresh, gate_begun, gate_entry, gate_noted, gate_passed,
    gates, governed_fields, info_goes_on, issue_keys, linked_fetched, proceeds, prompt_head,
    resolved, resumed,
    served_noted, EventView, InfoView, OutcomeView, PendingView, RunView, StageView, StepView,
    Trace,
};
use crate::guard::{
    assessment_of, denial_text, distinct_keys, fetch_list, fetched_for, prospective,
};
use crate::json::{json_pretty, written, JsonView};
use crate::keyset::sorted;
use crate::meta::meta_of;
use crate::policy::{read_only_grants_no_write, Capability, Operation};
use crate::project::{
    projected, restricted, restricted_comments_need_both_opt_ins, ungated_issue,
};
use crate::reply::account_id_of;
use crate::scrub::{scrubbed, scrubbed_key};
use crate::search::scan_of;
use crate::server::KeepView;
use crate::tools::ToolCall;

verus! {

// --- assessment comes first -------------------------------------------------

/// Input `j` is the issue of gate `i`, and the call is let through there.
pub open spec fn passed_at(trace: Trace, i: int, j: int) -> bool {
    let before = trace.after(j).0;
    &&& before.stage == (StageView::Gate { index: i })
    &&& gate_passed(trace.keep, before, i, trace.document(j), trace.inputs[j].1)
}

/// One of the first `n` inputs is the issue of gate `i`, and the call is let
/// through there.
pub open spec fn cleared(trace: Trace, n: int, i: int) -> bool {
    exists|j: int| 0 <= j < n && #[trigger] passed_at(trace, i, j)
}

/// A call shows something, or asks the site for more than who the caller is
/// and for the issues that it is assessed by.
pub open spec fn acts(after: (RunView, StepView)) -> bool {
    match after.1 {
        StepView::Call(_) => !(after.0.stage is Identity) && !(after.0.stage is Gate),
        StepView::Finish(outcome) => !(outcome is Failure),
    }
}

pub(crate) proof fn lemma_info_keeps_call(keep: KeepView, run: RunView, info: InfoView)
    ensures
        info_goes_on(keep, run, info).0.call == run.call,
        info_goes_on(keep, run, info).0.creds == run.creds,
        info_goes_on(keep, run, info).0.caller == run.caller,
        !(info_goes_on(keep, run, info).0.stage is Identity),
        !(info_goes_on(keep, run, info).0.stage is Gate),
    decreases info.keys.len() - info.next,
{
    if 0 <= info.next < info.keys.len() {
        let key = info.keys[info.next];
        let skipped = InfoView {
            next: info.next + 1,
            restricted: info.restricted.push(key),
            ..info
        };
        lemma_info_keeps_call(keep, run, skipped);
        if let Some((access, body)) = info.entries[info.next] {
            if let Some(summary) = projected(access, body) {
                let noted = RunView {
                    cell: served_noted(run.cell, access),
                    ..run
                };
                let served = InfoView {
                    next: info.next + 1,
                    issues: info.issues.push(summary),
                    ..info
                };
                lemma_info_keeps_call(keep, noted, served);
            }
        }
    }
}

/// What waited for keys is not followed by a gate.
proof fn lemma_linked_keeps_call(
    keep: KeepView,
    run: RunView,
    named: Set<Seq<char>>,
    replies: Seq<Option<JsonView>>,
    pending: PendingView,
    now: int,
)
    ensures
        linked_fetched(keep, run, named, replies, pending, now).0.call == run.call,
        !(linked_fetched(keep, run, named, replies, pending, now).0.stage is Identity),
        !(linked_fetched(keep, run, named, replies, pending, now).0.stage is Gate),
{
    if let PendingView::Issue { info, access, body } = pending {
        let disclosable = disclosed_keys(keep.policy, named, replies, run.caller, now);
        let custom = keep.policy.global.link_custom_fields;
        let noted = RunView { cell: served_noted(run.cell, access), ..run };
        let next = InfoView {
            next: info.next + 1,
            issues: info.issues.push(scrubbed(body, custom, disclosable)),
            scrubbed: info.scrubbed + sorted(
                Set::new(
                    |k: Seq<char>| scrubbed_key(body, custom, disclosable, k),
                ),
            ),
            ..info
        };
        lemma_info_keeps_call(keep, noted, next);
    }
}

/// After the gates there is no other gate.
proof fn lemma_later_stages(keep: KeepView, run: RunView, event: EventView, now: int)
    requires
        !(run.stage is Identity),
        !(run.stage is Gate),
    ensures
        resumed(keep, run, event, now).0.call == run.call,
        !(resumed(keep, run, event, now).0.stage is Identity),
        !(resumed(keep, run, event, now).0.stage is Gate),
{
    let idle = RunView { stage: StageView::Done, ..run };
    let document = event.document();
    match run.stage {
        StageView::Main => {
            if let ToolCall::IssueHistory(p) = run.call {
                if let Ok(v) = document {
                    lemma_linked_keeps_call(
                        keep,
                        idle,
                        changelog_keys(p.key@, v),
                        Seq::empty(),
                        PendingView::Changelog(v),
                        now,
                    );
                }
            }
        },
        StageView::Search { query, limit, retried } => {
            if let Ok(envelope) = document {
                let scan = scan_of(keep.policy, envelope, limit, run.caller, now);
                lemma_linked_keeps_call(
                    keep,
                    idle,
                    scan.candidates,
                    Seq::empty(),
                    PendingView::Search(scan),
                    now,
                );
            }
        },
        StageView::Keys { keys, replies } => {
            let seen = replies.push(fetched(document));
            let info = InfoView {
                keys,
                entries: Seq::new(
                    keys.len(),
                    |i: int|
                        assessment_of(keep.policy, keys, seen, run.caller, now, keys[i]),
                ),
                next: 0,
                issues: Seq::empty(),
                restricted: Seq::empty(),
                scrubbed: Seq::empty(),
            };
            lemma_info_keeps_call(keep, idle, info);
        },
        StageView::Full { info, access, body } => {
            let full = ungated_issue(
                access,
                match document {
                    Ok(v) => v,
                    Err(_) => body,
                },
            );
            lemma_linked_keeps_call(
                keep,
                idle,
                issue_keys(keep.policy, info.keys[info.next], full),
                Seq::empty(),
                PendingView::Issue { info, access, body: full },
                now,
            );
        },
        StageView::Linked { named, replies, pending } => {
            lemma_linked_keeps_call(
                keep,
                idle,
                named,
                replies.push(fetched(document)),
                pending,
                now,
            );
        },
        _ => {},
    }
}

/// What a call that comes to gate `index` does: it waits for the issue of that
/// gate, it fails, or it has passed all of them.
pub open spec fn at_gate(run: RunView, index: int, after: (RunView, StepView)) -> bool {
    &&& after.0.call == run.call
    &&& after.0.creds == run.creds
    &&& match after.0.stage {
        StageView::Gate { index: k } => k == index && index < gates(run.call).len()
            && after.1 is Call,
        StageView::Main => index >= gates(run.call).len(),
        StageView::Done => after.1 matches StepView::Finish(OutcomeView::Failure(_)),
        _ => false,
    }
}

proof fn lemma_gate_begun(keep: KeepView, run: RunView, index: int)
    ensures
        at_gate(run, index, gate_begun(keep, run, index)),
{
}

pub(crate) proof fn lemma_begun(keep: KeepView, call: ToolCall, creds: Credentials, start: int)
    requires
        gates(call).len() > 0,
    ensures
        ({
            let after = begun(keep, fresh(call, creds), start);
            ||| after.0.call == call && after.0.creds == creds && after.0.stage is Identity
                && after.1 is Call
            ||| at_gate(fresh(call, creds), 0, after)
        }),
{
    lemma_gate_begun(keep, fresh(call, creds), 0);
}

pub(crate) proof fn lemma_identity_then_gate(
    keep: KeepView,
    run: RunView,
    event: EventView,
    now: int,
)
    requires
        gates(run.call).len() > 0,
        run.stage is Identity,
    ensures
        at_gate(run, 0, resumed(keep, run, event, now)),
{
    let known = RunView {
        stage: StageView::Done,
        caller: resolved(
            keep.policy,
            account_id_of(event.document()),
        ),
        ..run
    };
    lemma_gate_begun(keep, known, 0);
}

pub(crate) proof fn lemma_gate_then_next(
    keep: KeepView,
    run: RunView,
    event: EventView,
    now: int,
    index: int,
)
    requires
        run.stage == (StageView::Gate { index }),
    ensures
        ({
            let after = resumed(keep, run, event, now);
            if gate_passed(keep, run, index, fetched(event.document()), now) {
                at_gate(run, index + 1, after)
            } else {
                after.0.call == run.call && after.0.creds == run.creds && after.0.stage is Done
                    && after.1
                    == StepView::Finish(OutcomeView::Failure(denial_text(gates(run.call)[index].0)))
            }
        }),
{
    let idle = RunView { stage: StageView::Done, ..run };
    let reply = fetched(event.document());
    let noted = gate_noted(
        idle,
        gate_entry(keep, idle, index, reply, now),
        gate_passed(keep, idle, index, reply, now),
    );
    lemma_gate_begun(keep, noted, index + 1);
}

/// The gates before `index` have let the call pass.
spec fn cleared_before(trace: Trace, n: int, index: int) -> bool {
    forall|i: int| 0 <= i < index ==> #[trigger] cleared(trace, n, i)
}

/// How far a run of a gated tool got.
spec fn in_order(trace: Trace, n: int) -> bool {
    let after = trace.after(n);
    &&& after.0.call == trace.call
    &&& match after.0.stage {
        StageView::Identity => after.1 is Call,
        StageView::Gate { index } => {
            &&& after.1 is Call
            &&& 0 <= index < gates(trace.call).len()
            &&& cleared_before(trace, n, index)
        },
        _ => {
            ||| after.0.stage is Done && after.1 matches StepView::Finish(OutcomeView::Failure(_))
            ||| cleared_before(trace, n, gates(trace.call).len() as int)
        },
    }
}

/// A gate that was passed stays so.
proof fn lemma_cleared_more(trace: Trace, n: int, index: int)
    requires
        cleared_before(trace, n - 1, index),
    ensures
        cleared_before(trace, n, index),
{
    assert forall|i: int| 0 <= i < index implies #[trigger] cleared(trace, n, i) by {
        assert(cleared(trace, n - 1, i));
        let j = choose|j: int| 0 <= j < n - 1 && #[trigger] passed_at(trace, i, j);
        assert(passed_at(trace, i, j));
    }
}

proof fn lemma_in_order(trace: Trace, n: int)
    requires
        gates(trace.call).len() > 0,
        0 <= n,
    ensures
        in_order(trace, n),
    decreases n,
{
    if n == 0 {
        lemma_begun(trace.keep, trace.call, trace.creds, trace.start);
    } else {
        lemma_in_order(trace, n - 1);
        let keep = trace.keep;
        let (event, now) = trace.inputs[n - 1];
        let before = trace.after(n - 1).0;
        let after = trace.after(n);
        assert(after == resumed(keep, before, event, now));
        match before.stage {
            StageView::Identity => {
                lemma_identity_then_gate(keep, before, event, now);
            },
            StageView::Gate { index } => {
                lemma_gate_then_next(keep, before, event, now, index);
                lemma_cleared_more(trace, n, index);
                if gate_passed(keep, before, index, fetched(event.document()), now) {
                    assert(passed_at(trace, index, n - 1));
                    assert(cleared_before(trace, n, index + 1));
                }
            },
            _ => {
                lemma_later_stages(keep, before, event, now);
                if before.stage is Done {
                    lemma_nothing_after_the_end(keep, before, event, now);
                } else {
                    lemma_cleared_more(trace, n, gates(trace.call).len() as int);
                }
            },
        }
    }
}

pub(crate) proof fn lemma_nothing_after_the_end(
    keep: KeepView,
    run: RunView,
    event: EventView,
    now: int,
)
    requires
        run.stage is Done,
    ensures
        resumed(keep, run, event, now).0.call == run.call,
        resumed(keep, run, event, now).0.creds == run.creds,
        resumed(keep, run, event, now).0.stage is Done,
        resumed(keep, run, event, now).1 matches StepView::Finish(OutcomeView::Failure(_)),
{
}

/// A tool that takes issue keys is assessed on each of them before it shows
/// anything and before it asks the site for anything else: whatever the site
/// answers, if the call shows a result or sends another request, each of its
/// gates has let it pass.
pub proof fn assessment_comes_first(trace: Trace, n: int, i: int)
    requires
        0 <= n <= trace.inputs.len(),
        0 <= i < gates(trace.call).len(),
        acts(trace.after(n)),
    ensures
        cleared(trace, n, i),
{
    lemma_in_order(trace, n);
}

/// Linking two issues is assessed at both ends: where it shows a result or
/// sends its request, the caller may link the one issue and may see the other.
pub proof fn linking_is_assessed_at_both_ends(trace: Trace, n: int)
    requires
        0 <= n <= trace.inputs.len(),
        trace.call is LinkIssues,
        acts(trace.after(n)),
    ensures
        gates(trace.call) == seq![
            (trace.call->LinkIssues_0.inward_key@, Capability::Links),
            (trace.call->LinkIssues_0.outward_key@, Capability::Summary),
        ],
        cleared(trace, n, 0),
        cleared(trace, n, 1),
{
    assessment_comes_first(trace, n, 0);
    assessment_comes_first(trace, n, 1);
}

/// An issue is filed only where the policy lets the caller do so; where it
/// does not, the call ends at once.
pub proof fn filing_needs_permission(keep: KeepView, call: ToolCall, creds: Credentials, now: int)
    requires
        call is CreateIssue,
    ensures
        begun(keep, fresh(call, creds), now).1 is Call <==> creation_allowed(
            keep,
            call->CreateIssue_0,
            now,
        ),
        begun(keep, fresh(call, creds), now).1 is Finish ==> begun(
            keep,
            fresh(call, creds),
            now,
        ).1->Finish_0 is Failure,
{
}

/// In read-only mode no write tool does anything, even if it is called: it
/// shows nothing and sends nothing but what it is assessed by.
pub proof fn read_only_mode_changes_nothing(trace: Trace, n: int)
    requires
        trace.keep.policy.global.read_only,
        trace.call.tool_of().writes(),
        0 <= n <= trace.inputs.len(),
    ensures
        !acts(trace.after(n)),
    decreases n,
{
    let policy = trace.keep.policy;
    if trace.call is CreateIssue {
        if n == 0 {
            let meta = prospective(
                policy,
                creation_meta(policy, trace.call->CreateIssue_0),
            );
            read_only_grants_no_write(
                policy,
                meta,
                trace.start,
                Operation::Create,
                Capability::Create,
            );
        } else {
            read_only_mode_changes_nothing(trace, 0);
            lemma_stays_done(trace, n);
        }
    } else if acts(trace.after(n)) {
        lemma_in_order(trace, n);
        assert(gates(trace.call).len() > 0);
        assessment_comes_first(trace, n, 0);
        let j = choose|j: int| 0 <= j < n && #[trigger] passed_at(trace, 0, j);
        lemma_in_order(trace, j);
        let before = trace.after(j).0;
        let key = gates(trace.call)[0].0;
        let issue = fetched_for(fetch_list(seq![key]), seq![trace.document(j)], key)->0;
        read_only_grants_no_write(
            policy,
            meta_of(issue, before.caller, policy.global.public_projects),
            trace.inputs[j].1,
            Operation::Access,
            gates(trace.call)[0].1,
        );
    }
}

/// A call that was refused at once stays so.
proof fn lemma_stays_done(trace: Trace, n: int)
    requires
        0 < n,
        trace.after(0).0.stage is Done,
        trace.after(0).1 matches StepView::Finish(OutcomeView::Failure(_)),
    ensures
        trace.after(n).0.stage is Done,
        trace.after(n).1 matches StepView::Finish(OutcomeView::Failure(_)),
    decreases n,
{
    if n > 1 {
        lemma_stays_done(trace, n - 1);
    }
    lemma_nothing_after_the_end(
        trace.keep,
        trace.after(n - 1).0,
        trace.inputs[n - 1].0,
        trace.inputs[n - 1].1,
    );
}

// --- one denial -------------------------------------------------------------

/// An issue that was not found, or whose fetch failed, passes no gate.
pub proof fn missing_issue_passes_no_gate(keep: KeepView, run: RunView, index: int, now: int)
    ensures
        !gate_passed(keep, run, index, None, now),
{
    let key = gates(run.call)[index].0;
    let wanted = fetch_list(seq![key]);
    reveal_with_fuel(distinct_keys, 2);
    assert(seq![key].drop_last() =~= Seq::<Seq<char>>::empty());
}

/// At a gate, an issue that the policy denies and an issue that does not exist
/// are told apart by nothing: the call ends with the same text for both.
pub proof fn denied_and_missing_look_alike(
    keep: KeepView,
    run: RunView,
    index: int,
    denied: EventView,
    missing: EventView,
    now: int,
    later: int,
)
    requires
        run.stage == (StageView::Gate { index }),
        !gate_passed(keep, run, index, fetched(denied.document()), now),
        missing.document() is Err,
    ensures
        resumed(keep, run, denied, now).1 == resumed(keep, run, missing, later).1,
        resumed(keep, run, missing, later).1 == StepView::Finish(
            OutcomeView::Failure(denial_text(gates(run.call)[index].0)),
        ),
{
    missing_issue_passes_no_gate(keep, run, index, later);
    lemma_gate_then_next(keep, run, denied, now, index);
    lemma_gate_then_next(keep, run, missing, later, index);
}

// --- what a tool leaves alone -----------------------------------------------

/// A general field update sets no governed field: where its request is sent,
/// the fields are an object without any of them.
pub proof fn update_sets_no_governed_field(keep: KeepView, run: RunView, name: Seq<char>)
    requires
        run.call is UpdateIssueFields,
        governed_fields().contains(name),
        proceeds(keep, run).1 is Call,
    ensures
        run.call->UpdateIssueFields_0.fields@ matches JsonView::Object(fields)
            && !fields.dom().contains(name),
{
    let i = choose|i: int| 0 <= i < governed_fields().len() && governed_fields()[i] == name;
}

/// A comment of restricted visibility is shown only where the policy allows it
/// and the call asks for it.
pub proof fn restricted_comments_stay_hidden(
    keep: KeepView,
    envelope: JsonView,
    opt_in: bool,
    i: int,
)
    requires
        0 <= i < comments_served(keep, envelope, opt_in)->Array_0.len(),
        restricted(comments_served(keep, envelope, opt_in)->Array_0[i]),
    ensures
        keep.policy.global.allow_restricted_comments,
        opt_in,
{
    restricted_comments_need_both_opt_ins(
        comments_in(envelope),
        keep.policy.global.allow_restricted_comments,
        opt_in,
        i,
    );
}

/// A prompt for a summary ends with the comments of the issue, and none of them
/// is of restricted visibility, whatever the policy says.
pub proof fn summary_prompt_holds_no_restricted_comment(
    keep: KeepView,
    run: RunView,
    event: EventView,
    now: int,
    i: int,
)
    requires
        run.call is SummarizeIssue,
        concluded(keep, run, event, now).1 matches StepView::Finish(
            OutcomeView::Prompt { comments, .. },
        ) && comments is Array && 0 <= i < comments->Array_0.len(),
    ensures
        !restricted(
            concluded(keep, run, event, now).1->Finish_0->comments->Array_0[i],
        ),
        concluded(keep, run, event, now).1->Finish_0->Prompt_text == prompt_head(
            run.call->SummarizeIssue_0.key@,
        ) + json_pretty(written(concluded(keep, run, event, now).1->Finish_0->comments)),
{
    let envelope = event.document()->Ok_0;
    if restricted(comments_served(keep, envelope, false)->Array_0[i]) {
        restricted_comments_stay_hidden(keep, envelope, false, i);
    }
}

} // verus!
