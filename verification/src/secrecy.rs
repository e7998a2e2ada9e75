//! What the tools keep to themselves: what a client sees of a run hangs on
//! neither the credentials, nor what is noted for the audit log, nor the names
//! of the rules; and what is noted does not hang on the credentials.

use vstd::prelude::*;
use vstd::string::*;

use crate::audit::CellView;
use crate::client::{QueryView, RequestView};
use crate::flow::{
    begun, changelog_keys, cleaned, concluded, creation_meta, disclosed_keys, fetched, fresh,
    full_found, gate_begun, gate_decided, gate_entry, gate_noted, gate_passed, gates, identified,
    info_fetched, info_goes_on, issue_keys, linked_fetched, proceeds, resolved, resumed,
    search_found, served_noted, EventView, InfoView, PendingView, RunView, StageView, StepView,
    Trace,
};
use crate::guard::{assessment_of, disclosed, fetch_list, fetched_for, prospective};
use crate::json::JsonView;
use crate::keyset::{sorted, texts};
use crate::meta::{meta_of, MetaView};
use crate::policy::{
    asks_identity, decide, first_match, AccessView, Operation, PolicyView, RuleView,
};
use crate::project::{projected, ungated_issue};
use crate::reply::{account_id_of, ErrorView};
use crate::scrub::{scrubbed, scrubbed_key};
use crate::search::{dropped_list, found, scan_of, served_list};
use crate::server::{server_facts, KeepView};
use crate::tools::ToolCall;

verus! {

// --- what a client may tell apart -------------------------------------------

/// Two lists of rules that differ at most in names and descriptions; not even
/// in these where `exact` is set.
pub open spec fn alike_rules(exact: bool, a: Seq<RuleView>, b: Seq<RuleView>) -> bool {
    &&& exact ==> a == b
    &&& a.len() == b.len()
    &&& forall|i: int|
        0 <= i < a.len() ==> {
            &&& (#[trigger] a[i]).action == b[i].action
            &&& a[i].capabilities == b[i].capabilities
            &&& a[i].criteria == b[i].criteria
        }
}

/// Two policies that differ at most in the names and descriptions of rules; not
/// even in these where `exact` is set.
pub open spec fn alike_policies(exact: bool, a: PolicyView, b: PolicyView) -> bool {
    &&& a.default_action == b.default_action
    &&& a.global == b.global
    &&& alike_rules(exact, a.rules, b.rules)
}

/// Two servers for the same site, with policies that differ at most in the
/// names and descriptions of rules; not even in these where `exact` is set.
/// Their tokens and emails may differ, and their audit logs.
pub open spec fn alike_servers(exact: bool, a: KeepView, b: KeepView) -> bool {
    &&& a.cfg.auth_mode == b.cfg.auth_mode
    &&& a.cfg.jira_server@ == b.cfg.jira_server@
    &&& a.cfg.transport == b.cfg.transport
    &&& a.client == b.client
    &&& a.audit is Some == b.audit is Some
    &&& alike_policies(exact, a.policy, b.policy)
}

/// The same capabilities, granted by rules of whatever name; of the same name
/// where `exact` is set.
pub open spec fn alike_access(exact: bool, a: AccessView, b: AccessView) -> bool {
    &&& exact ==> a == b
    &&& match (a, b) {
        (AccessView::Denied { .. }, AccessView::Denied { .. }) => true,
        (
            AccessView::Granted { caps: x, .. },
            AccessView::Granted { caps: y, .. },
        ) => x == y,
        _ => false,
    }
}

/// Two assessments of an issue.
pub open spec fn alike_entry(
    exact: bool,
    a: Option<(AccessView, JsonView)>,
    b: Option<(AccessView, JsonView)>,
) -> bool {
    match (a, b) {
        (Some((x, v)), Some((y, w))) => alike_access(exact, x, y) && v == w,
        (None, None) => true,
        _ => false,
    }
}

pub open spec fn alike_info(exact: bool, a: InfoView, b: InfoView) -> bool {
    &&& a.keys == b.keys
    &&& a.next == b.next
    &&& a.issues == b.issues
    &&& a.restricted == b.restricted
    &&& a.scrubbed == b.scrubbed
    &&& a.entries.len() == a.keys.len()
    &&& b.entries.len() == b.keys.len()
    &&& forall|i: int|
        0 <= i < a.entries.len() ==> #[trigger] alike_entry(exact, a.entries[i], b.entries[i])
}

pub open spec fn alike_pending(exact: bool, a: PendingView, b: PendingView) -> bool {
    match (a, b) {
        (PendingView::Changelog(v), PendingView::Changelog(w)) => v == w,
        (PendingView::Search(v), PendingView::Search(w)) => v == w,
        (
            PendingView::Issue { info: i, access: x, body: v },
            PendingView::Issue { info: j, access: y, body: w },
        ) => alike_info(exact, i, j) && alike_access(exact, x, y) && v == w,
        _ => false,
    }
}

pub open spec fn alike_stage(exact: bool, a: StageView, b: StageView) -> bool {
    match (a, b) {
        (
            StageView::Full { info: i, access: x, body: v },
            StageView::Full { info: j, access: y, body: w },
        ) => alike_info(exact, i, j) && alike_access(exact, x, y) && v == w,
        (
            StageView::Linked { named: k, replies: r, pending: p },
            StageView::Linked { named: l, replies: s, pending: q },
        ) => k == l && r == s && alike_pending(exact, p, q),
        _ => a == b,
    }
}

/// The same notes, but for the name of the rule; that too where `exact` is set.
pub open spec fn alike_cells(exact: bool, a: CellView, b: CellView) -> bool {
    &&& exact ==> a.rule == b.rule
    &&& a == CellView { rule: a.rule, ..b }
}

/// Two runs of the same call for the same caller, which may differ in the
/// credentials and in the names of rules; not in the latter where `exact` is
/// set.
pub open spec fn alike_runs(exact: bool, a: RunView, b: RunView) -> bool {
    &&& a.call == b.call
    &&& a.caller == b.caller
    &&& alike_cells(exact, a.cell, b.cell)
    &&& alike_stage(exact, a.stage, b.stage)
}

/// Two requests that differ at most in the credentials.
pub open spec fn alike_requests(a: RequestView, b: RequestView) -> bool {
    a == RequestView { authorization: a.authorization, ..b }
}

/// The same outcome, or the same request with whatever credentials.
pub open spec fn alike_steps(a: StepView, b: StepView) -> bool {
    match (a, b) {
        (StepView::Call(r), StepView::Call(s)) => alike_requests(r, s),
        _ => a == b,
    }
}

spec fn both_alike(exact: bool, a: (RunView, StepView), b: (RunView, StepView)) -> bool {
    alike_runs(exact, a.0, b.0) && alike_steps(a.1, b.1)
}

// --- decisions --------------------------------------------------------------

proof fn lemma_first_match(
    exact: bool,
    p: PolicyView,
    q: PolicyView,
    a: Seq<RuleView>,
    b: Seq<RuleView>,
    meta: MetaView,
    now: int,
)
    requires
        alike_policies(exact, p, q),
        alike_rules(exact, a, b),
    ensures
        alike_access(exact, first_match(p, a, meta, now), first_match(q, b, meta, now)),
    decreases a.len(),
{
    if a.len() > 0 {
        assert(a[0].criteria == b[0].criteria);
        assert forall|i: int| 0 <= i < a.drop_first().len() implies {
            &&& (#[trigger] a.drop_first()[i]).action == b.drop_first()[i].action
            &&& a.drop_first()[i].capabilities == b.drop_first()[i].capabilities
            &&& a.drop_first()[i].criteria == b.drop_first()[i].criteria
        } by {
            assert(a[i + 1].action == b[i + 1].action);
        }
        lemma_first_match(exact, p, q, a.drop_first(), b.drop_first(), meta, now);
    }
}

proof fn lemma_decide(exact: bool, p: PolicyView, q: PolicyView, meta: MetaView, now: int, op: Operation)
    requires
        alike_policies(exact, p, q),
    ensures
        alike_access(exact, decide(p, meta, now, op), decide(q, meta, now, op)),
{
    lemma_first_match(exact, p, q, p.rules, q.rules, meta, now);
}

proof fn lemma_asks_identity(exact: bool, p: PolicyView, q: PolicyView)
    requires
        alike_policies(exact, p, q),
    ensures
        asks_identity(p) == asks_identity(q),
{
    if asks_identity(p) {
        let i = choose|i: int|
            0 <= i < p.rules.len() && (#[trigger] p.rules[i]).criteria.created_by_me is Some;
        assert(q.rules[i].criteria.created_by_me is Some);
    }
    if asks_identity(q) {
        let i = choose|i: int|
            0 <= i < q.rules.len() && (#[trigger] q.rules[i]).criteria.created_by_me is Some;
        assert(p.rules[i].criteria.created_by_me is Some);
    }
}

proof fn lemma_assessment(
    exact: bool,
    p: PolicyView,
    q: PolicyView,
    keys: Seq<Seq<char>>,
    replies: Seq<Option<JsonView>>,
    caller: Option<Seq<char>>,
    now: int,
    key: Seq<char>,
)
    requires
        alike_policies(exact, p, q),
    ensures
        alike_entry(
            exact,
            assessment_of(p, keys, replies, caller, now, key),
            assessment_of(q, keys, replies, caller, now, key),
        ),
{
    if let Some(issue) = fetched_for(fetch_list(keys), replies, key) {
        lemma_decide(
            exact,
            p,
            q,
            meta_of(issue, caller, p.global.public_projects),
            now,
            Operation::Access,
        );
    }
}

proof fn lemma_disclosed_keys(
    exact: bool,
    p: PolicyView,
    q: PolicyView,
    named: Set<Seq<char>>,
    replies: Seq<Option<JsonView>>,
    caller: Option<Seq<char>>,
    now: int,
)
    requires
        alike_policies(exact, p, q),
    ensures
        disclosed_keys(p, named, replies, caller, now) == disclosed_keys(
            q,
            named,
            replies,
            caller,
            now,
        ),
{
    assert forall|k: Seq<char>|
        disclosed(p, sorted(named), replies, caller, now, k) == #[trigger] disclosed(
            q,
            sorted(named),
            replies,
            caller,
            now,
            k,
        ) by {
        lemma_assessment(exact, p, q, sorted(named), replies, caller, now, k);
    }
    assert(disclosed_keys(p, named, replies, caller, now) =~= disclosed_keys(
        q,
        named,
        replies,
        caller,
        now,
    ));
}

proof fn lemma_lists(
    exact: bool,
    p: PolicyView,
    q: PolicyView,
    issues: Seq<JsonView>,
    caller: Option<Seq<char>>,
    now: int,
)
    requires
        alike_policies(exact, p, q),
    ensures
        served_list(p, issues, caller, now) == served_list(q, issues, caller, now),
        dropped_list(p, issues, caller, now) == dropped_list(q, issues, caller, now),
    decreases issues.len(),
{
    if issues.len() > 0 {
        lemma_lists(exact, p, q, issues.drop_last(), caller, now);
        lemma_decide(
            exact,
            p,
            q,
            meta_of(issues.last(), caller, p.global.public_projects),
            now,
            Operation::Access,
        );
    }
}

proof fn lemma_scan(
    exact: bool,
    p: PolicyView,
    q: PolicyView,
    envelope: JsonView,
    limit: int,
    caller: Option<Seq<char>>,
    now: int,
)
    requires
        alike_policies(exact, p, q),
    ensures
        scan_of(p, envelope, limit, caller, now) == scan_of(q, envelope, limit, caller, now),
{
    lemma_lists(exact, p, q, found(envelope), caller, now);
}

// --- steps ------------------------------------------------------------------

proof fn lemma_info_goes_on(
    exact: bool,
    keep: KeepView,
    other: KeepView,
    a: RunView,
    b: RunView,
    info: InfoView,
    same: InfoView,
)
    requires
        alike_servers(exact, keep, other),
        alike_runs(exact, a, b),
        alike_info(exact, info, same),
    ensures
        both_alike(exact, info_goes_on(keep, a, info), info_goes_on(other, b, same)),
    decreases info.keys.len() - info.next,
{
    if 0 <= info.next < info.keys.len() {
        let key = info.keys[info.next];
        assert(alike_entry(exact, info.entries[info.next], same.entries[info.next]));
        let skipped = InfoView {
            next: info.next + 1,
            restricted: info.restricted.push(key),
            ..info
        };
        let skipped_too = InfoView {
            next: same.next + 1,
            restricted: same.restricted.push(key),
            ..same
        };
        assert(alike_info(exact, skipped, skipped_too));
        lemma_info_goes_on(exact, keep, other, a, b, skipped, skipped_too);
        if let Some((access, body)) = info.entries[info.next] {
            let (access_too, _) = same.entries[same.next]->0;
            if let Some(summary) = projected(access, body) {
                let noted = RunView { cell: served_noted(a.cell, access), ..a };
                let noted_too = RunView { cell: served_noted(b.cell, access_too), ..b };
                let served = InfoView {
                    next: info.next + 1,
                    issues: info.issues.push(summary),
                    ..info
                };
                let served_too = InfoView {
                    next: same.next + 1,
                    issues: same.issues.push(summary),
                    ..same
                };
                assert(alike_info(exact, served, served_too));
                lemma_info_goes_on(exact, keep, other, noted, noted_too, served, served_too);
            }
        }
    }
}

proof fn lemma_info_fetched(
    exact: bool,
    keep: KeepView,
    other: KeepView,
    a: RunView,
    b: RunView,
    keys: Seq<Seq<char>>,
    replies: Seq<Option<JsonView>>,
    now: int,
)
    requires
        alike_servers(exact, keep, other),
        alike_runs(exact, a, b),
    ensures
        both_alike(
            exact,
            info_fetched(keep, a, keys, replies, now),
            info_fetched(other, b, keys, replies, now),
        ),
{
    let info = InfoView {
        keys,
        entries: Seq::new(
            keys.len(),
            |i: int| assessment_of(keep.policy, keys, replies, a.caller, now, keys[i]),
        ),
        next: 0,
        issues: Seq::empty(),
        restricted: Seq::empty(),
        scrubbed: Seq::empty(),
    };
    let same = InfoView {
        entries: Seq::new(
            keys.len(),
            |i: int| assessment_of(other.policy, keys, replies, b.caller, now, keys[i]),
        ),
        ..info
    };
    assert(alike_info(exact, info, same)) by {
        assert forall|i: int| 0 <= i < keys.len() implies #[trigger] alike_entry(
            exact,
            info.entries[i],
            same.entries[i],
        ) by {
            lemma_assessment(exact, keep.policy, other.policy, keys, replies, a.caller, now, keys[i]);
        }
    }
    lemma_info_goes_on(exact, keep, other, a, b, info, same);
}

proof fn lemma_linked_fetched(
    exact: bool,
    keep: KeepView,
    other: KeepView,
    a: RunView,
    b: RunView,
    named: Set<Seq<char>>,
    replies: Seq<Option<JsonView>>,
    pending: PendingView,
    same: PendingView,
    now: int,
)
    requires
        alike_servers(exact, keep, other),
        alike_runs(exact, a, b),
        alike_pending(exact, pending, same),
    ensures
        both_alike(
            exact,
            linked_fetched(keep, a, named, replies, pending, now),
            linked_fetched(other, b, named, replies, same, now),
        ),
{
    lemma_disclosed_keys(exact, keep.policy, other.policy, named, replies, a.caller, now);
    let disclosable = disclosed_keys(keep.policy, named, replies, a.caller, now);
    if let PendingView::Issue { info, access, body } = pending {
        if let PendingView::Issue { info: info_too, access: access_too, body: body_too } = same {
            let custom = keep.policy.global.link_custom_fields;
            let removed = sorted(
                Set::new(|k: Seq<char>| scrubbed_key(body, custom, disclosable, k)),
            );
            let next = InfoView {
                next: info.next + 1,
                issues: info.issues.push(scrubbed(body, custom, disclosable)),
                scrubbed: info.scrubbed + removed,
                ..info
            };
            let next_too = InfoView {
                next: info_too.next + 1,
                issues: info_too.issues.push(scrubbed(body_too, custom, disclosable)),
                scrubbed: info_too.scrubbed + removed,
                ..info_too
            };
            assert(alike_info(exact, next, next_too));
            lemma_info_goes_on(
                exact,
                keep,
                other,
                RunView { cell: served_noted(a.cell, access), ..a },
                RunView { cell: served_noted(b.cell, access_too), ..b },
                next,
                next_too,
            );
        }
    }
}

proof fn lemma_proceeds(exact: bool, keep: KeepView, other: KeepView, a: RunView, b: RunView)
    requires
        alike_servers(exact, keep, other),
        alike_runs(exact, a, b),
    ensures
        both_alike(exact, proceeds(keep, a), proceeds(other, b)),
{
}

proof fn lemma_gate_begun(exact: bool, keep: KeepView, other: KeepView, a: RunView, b: RunView, index: int)
    requires
        alike_servers(exact, keep, other),
        alike_runs(exact, a, b),
    ensures
        both_alike(exact, gate_begun(keep, a, index), gate_begun(other, b, index)),
{
    lemma_proceeds(exact, keep, other, a, b);
}

proof fn lemma_gate_decided(
    exact: bool,
    keep: KeepView,
    other: KeepView,
    a: RunView,
    b: RunView,
    index: int,
    reply: Option<JsonView>,
    now: int,
)
    requires
        alike_servers(exact, keep, other),
        alike_runs(exact, a, b),
    ensures
        both_alike(
            exact,
            gate_decided(keep, a, index, reply, now),
            gate_decided(other, b, index, reply, now),
        ),
{
    let key = gates(a.call)[index].0;
    lemma_assessment(exact, keep.policy, other.policy, seq![key], seq![reply], a.caller, now, key);
    let allowed = gate_passed(keep, a, index, reply, now);
    lemma_gate_begun(
        exact,
        keep,
        other,
        gate_noted(a, gate_entry(keep, a, index, reply, now), allowed),
        gate_noted(b, gate_entry(other, b, index, reply, now), allowed),
        index + 1,
    );
}

proof fn lemma_identified(exact: bool, keep: KeepView, other: KeepView, a: RunView, b: RunView, now: int)
    requires
        alike_servers(exact, keep, other),
        alike_runs(exact, a, b),
    ensures
        both_alike(exact, identified(keep, a, now), identified(other, b, now)),
{
    match a.call {
        ToolCall::IssueInfo(p) => {
            let keys = cleaned(texts(p.keys@));
            lemma_info_fetched(exact, keep, other, a, b, keys, Seq::empty(), now);
        },
        _ => {
            lemma_gate_begun(exact, keep, other, a, b, 0);
        },
    }
}

proof fn lemma_begun(exact: bool, keep: KeepView, other: KeepView, a: RunView, b: RunView, now: int)
    requires
        alike_servers(exact, keep, other),
        alike_runs(exact, a, b),
    ensures
        both_alike(exact, begun(keep, a, now), begun(other, b, now)),
{
    lemma_asks_identity(exact, keep.policy, other.policy);
    match a.call {
        ToolCall::CreateIssue(p) => {
            lemma_decide(
                exact,
                keep.policy,
                other.policy,
                prospective(keep.policy, creation_meta(keep.policy, p)),
                now,
                Operation::Create,
            );
        },
        ToolCall::McpServerInfo => {
            assert(server_facts(keep) == server_facts(other));
        },
        _ => {
            lemma_identified(exact, keep, other, a, b, now);
        },
    }
}

proof fn lemma_concluded(
    exact: bool,
    keep: KeepView,
    other: KeepView,
    a: RunView,
    b: RunView,
    event: EventView,
    now: int,
)
    requires
        alike_servers(exact, keep, other),
        alike_runs(exact, a, b),
    ensures
        both_alike(exact, concluded(keep, a, event, now), concluded(other, b, event, now)),
{
    if let ToolCall::IssueHistory(p) = a.call {
        if let Ok(v) = event.document() {
            lemma_linked_fetched(
                exact,
                keep,
                other,
                a,
                b,
                changelog_keys(p.key@, v),
                Seq::empty(),
                PendingView::Changelog(v),
                PendingView::Changelog(v),
                now,
            );
        }
    }
}

proof fn lemma_search_found(
    exact: bool,
    keep: KeepView,
    other: KeepView,
    a: RunView,
    b: RunView,
    query: QueryView,
    limit: int,
    retried: bool,
    outcome: Result<JsonView, ErrorView>,
    now: int,
)
    requires
        alike_servers(exact, keep, other),
        alike_runs(exact, a, b),
    ensures
        both_alike(
            exact,
            search_found(keep, a, query, limit, retried, outcome, now),
            search_found(other, b, query, limit, retried, outcome, now),
        ),
{
    if let Ok(envelope) = outcome {
        lemma_scan(exact, keep.policy, other.policy, envelope, limit, a.caller, now);
        let scan = scan_of(keep.policy, envelope, limit, a.caller, now);
        lemma_linked_fetched(
            exact,
            keep,
            other,
            a,
            b,
            scan.candidates,
            Seq::empty(),
            PendingView::Search(scan),
            PendingView::Search(scan),
            now,
        );
    }
}

proof fn lemma_full_found(
    exact: bool,
    keep: KeepView,
    other: KeepView,
    a: RunView,
    b: RunView,
    info: InfoView,
    same: InfoView,
    access: AccessView,
    access_too: AccessView,
    body: JsonView,
    outcome: Result<JsonView, ErrorView>,
    now: int,
)
    requires
        alike_servers(exact, keep, other),
        alike_runs(exact, a, b),
        alike_info(exact, info, same),
        alike_access(exact, access, access_too),
    ensures
        both_alike(
            exact,
            full_found(keep, a, info, access, body, outcome, now),
            full_found(other, b, same, access_too, body, outcome, now),
        ),
{
    let whole = match outcome {
        Ok(v) => v,
        Err(_) => body,
    };
    let full = ungated_issue(access, whole);
    assert(full == ungated_issue(access_too, whole));
    lemma_linked_fetched(
        exact,
        keep,
        other,
        a,
        b,
        issue_keys(keep.policy, info.keys[info.next], full),
        Seq::empty(),
        PendingView::Issue { info, access, body: full },
        PendingView::Issue { info: same, access: access_too, body: full },
        now,
    );
}

proof fn lemma_resumed(
    exact: bool,
    keep: KeepView,
    other: KeepView,
    a: RunView,
    b: RunView,
    event: EventView,
    now: int,
)
    requires
        alike_servers(exact, keep, other),
        alike_runs(exact, a, b),
    ensures
        both_alike(exact, resumed(keep, a, event, now), resumed(other, b, event, now)),
{
    let x = RunView { stage: StageView::Done, ..a };
    let y = RunView { stage: StageView::Done, ..b };
    let document = event.document();
    match a.stage {
        StageView::Identity => {
            lemma_asks_identity(exact, keep.policy, other.policy);
            let caller = resolved(keep.policy, account_id_of(document));
            lemma_identified(exact, keep, other, RunView { caller, ..x }, RunView { caller, ..y }, now);
        },
        StageView::Gate { index } => {
            lemma_gate_decided(exact, keep, other, x, y, index, fetched(document), now);
        },
        StageView::Main => {
            lemma_concluded(exact, keep, other, x, y, event, now);
        },
        StageView::Search { query, limit, retried } => {
            lemma_search_found(exact, keep, other, x, y, query, limit, retried, document, now);
        },
        StageView::Keys { keys, replies } => {
            lemma_info_fetched(exact, keep, other, x, y, keys, replies.push(fetched(document)), now);
        },
        StageView::Full { info, access, body } => {
            if let StageView::Full { info: same, access: access_too, .. } = b.stage {
                lemma_full_found(
                    exact,
                    keep,
                    other,
                    x,
                    y,
                    info,
                    same,
                    access,
                    access_too,
                    body,
                    document,
                    now,
                );
            }
        },
        StageView::Linked { named, replies, pending } => {
            if let StageView::Linked { pending: same, .. } = b.stage {
                lemma_linked_fetched(
                    exact,
                    keep,
                    other,
                    x,
                    y,
                    named,
                    replies.push(fetched(document)),
                    pending,
                    same,
                    now,
                );
            }
        },
        _ => {},
    }
}

proof fn lemma_traces(exact: bool, a: Trace, b: Trace, n: int)
    requires
        alike_servers(exact, a.keep, b.keep),
        a.call == b.call,
        a.start == b.start,
        a.inputs == b.inputs,
        0 <= n,
    ensures
        both_alike(exact, a.after(n), b.after(n)),
    decreases n,
{
    if n == 0 {
        lemma_begun(
            exact,
            a.keep,
            b.keep,
            fresh(a.call, a.creds),
            fresh(b.call, b.creds),
            a.start,
        );
    } else {
        lemma_traces(exact, a, b, n - 1);
        lemma_resumed(
            exact,
            a.keep,
            b.keep,
            a.after(n - 1).0,
            b.after(n - 1).0,
            a.inputs[n - 1].0,
            a.inputs[n - 1].1,
        );
    }
}

/// What a client sees of a call hangs on neither the credentials, nor the
/// token and email that the server holds, nor the audit log, nor the names and
/// descriptions of rules: two runs of a call that differ in these alone, and in
/// which the site gives the same answers, come to the same outcome.
pub proof fn outcomes_tell_neither_secrets_nor_rule_names(a: Trace, b: Trace, n: int)
    requires
        alike_servers(false, a.keep, b.keep),
        a.call == b.call,
        a.start == b.start,
        a.inputs == b.inputs,
        0 <= n <= a.inputs.len(),
    ensures
        a.after(n).1 is Finish == b.after(n).1 is Finish,
        a.after(n).1 is Finish ==> a.after(n).1 == b.after(n).1,
{
    lemma_traces(false, a, b, n);
}

/// Credentials go into the authorization of a request and nowhere else: two
/// runs of a call that differ in credentials and names of rules alone send the
/// same requests, but for the authorization.
pub proof fn credentials_go_into_the_authorization_alone(a: Trace, b: Trace, n: int)
    requires
        alike_servers(false, a.keep, b.keep),
        a.call == b.call,
        a.start == b.start,
        a.inputs == b.inputs,
        0 <= n <= a.inputs.len(),
        a.after(n).1 is Call,
    ensures
        b.after(n).1 is Call,
        alike_requests(a.after(n).1->Call_0, b.after(n).1->Call_0),
{
    lemma_traces(false, a, b, n);
}

/// What a run notes for the audit log hangs on neither the credentials nor the
/// token and email that the server holds: two runs of a call that differ in
/// these alone, and in which the site gives the same answers, note the same.
pub proof fn audit_notes_tell_no_credentials(a: Trace, b: Trace, n: int)
    requires
        alike_servers(true, a.keep, b.keep),
        a.call == b.call,
        a.start == b.start,
        a.inputs == b.inputs,
        0 <= n <= a.inputs.len(),
    ensures
        a.after(n).0.cell == b.after(n).0.cell,
{
    lemma_traces(true, a, b, n);
}

} // verus!
