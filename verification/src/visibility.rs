//! What the tools show of issues, over whole runs: no result names an issue
//! that the answers of the site did not show to be visible.

use vstd::prelude::*;
use vstd::string::*;

use crate::audit::blank_cell;
use crate::client::issue_request;
use crate::flow::{
    changelog_keys, classify_request, cleaned, disclosed_keys, fresh, identified, info_fetched,
    info_goes_on, issue_keys, linked_fetched, resolved, search_noted, search_result, served_noted,
    InfoView, OutcomeView, PendingView, RunView, StageView, StepView, Trace,
};
use crate::guard::{assessment_of, disclosed, fetch_list, MAX_ASSESS_KEYS};
use crate::json::{text_array, JsonView};
use crate::keyset::{admits, sorted, texts};
use crate::laws::{
    lemma_begun, lemma_gate_then_next, lemma_identity_then_gate, lemma_info_keeps_call,
    lemma_nothing_after_the_end,
};
use crate::policy::{asks_identity, AccessView, Capability};
use crate::project::{summary_field, summary_of, summary_tells_nothing_else, ungated_issue};
use crate::reply::account_id_of;
use crate::scrub::{
    change_at, change_value, custom_names_at, key_like, redacted,
    redacted_changelog_names_only_disclosable, refers_to, scrubbed,
    scrubbed_issue_names_only_disclosable, scrubbed_key,
};
use crate::search::{
    found, scan_of, search_window_names_only_disclosable, served_issues_are_allowed, served_list,
    served_view, window_of, ScanView, WindowView,
};
use crate::server::KeepView;
use crate::text::same_ignoring_case;
use crate::tools::ToolCall;

verus! {

// --- what a run has shown ---------------------------------------------------

/// The keys were asked for one after the other, from input `from` on, and the
/// first `n` inputs hold the answers.
pub open spec fn asked(trace: Trace, n: int, from: int, wanted: Seq<Seq<char>>) -> bool {
    &&& 0 <= from
    &&& from + wanted.len() <= n
    &&& forall|m: int|
        0 <= m < wanted.len() ==> trace.after(from + m).1 == StepView::Call(
            classify_request(trace.keep, fresh(trace.call, trace.creds), #[trigger] wanted[m]),
        )
}

/// The first `n` inputs show that the issue `key` may be disclosed: it was
/// among `named`, whose issues were asked for from input `from` on, and going
/// by the answers at least its summary is visible.
pub open spec fn disclosed_in_run(
    trace: Trace,
    n: int,
    from: int,
    named: Set<Seq<char>>,
    key: Seq<char>,
) -> bool {
    let wanted = fetch_list(sorted(named));
    let to = from + wanted.len();
    &&& asked(trace, n, from, wanted)
    &&& disclosed(
        trace.keep.policy,
        sorted(named),
        trace.documents(from, wanted.len() as int),
        trace.after(to).0.caller,
        trace.time(to),
        key,
    )
}

/// The keys in `set` are those that may be disclosed of `named`, whose issues
/// were asked for from input `from` on, going by the answers.
pub open spec fn disclosed_from(
    trace: Trace,
    n: int,
    from: int,
    named: Set<Seq<char>>,
    set: Set<Seq<char>>,
) -> bool {
    let wanted = fetch_list(sorted(named));
    let to = from + wanted.len();
    &&& asked(trace, n, from, wanted)
    &&& set == disclosed_keys(
        trace.keep.policy,
        named,
        trace.documents(from, wanted.len() as int),
        trace.after(to).0.caller,
        trace.time(to),
    )
}

/// The first `n` inputs show that the issue `key` may be disclosed: input `j`
/// is the result of a search, its issue `i` has that key, and it is one to
/// serve.
pub open spec fn found_in_run(trace: Trace, n: int, j: int, i: int, key: Seq<char>) -> bool {
    &&& 0 <= j < n
    &&& trace.after(j).0.stage is Search
    &&& trace.document(j) is Some
    &&& 0 <= i < found(trace.document(j)->0).len()
    &&& found(trace.document(j)->0)[i].text_at("key"@) == Some(key)
    &&& served_view(
        trace.keep.policy,
        found(trace.document(j)->0)[i],
        trace.after(j).0.caller,
        trace.inputs[j].1,
    ) is Some
}

/// The first `n` inputs show that the issue `key` may be disclosed, under this
/// key or one that differs in case.
pub open spec fn shown_visible(trace: Trace, n: int, key: Seq<char>) -> bool {
    ||| exists|d: Seq<char>, from: int, named: Set<Seq<char>>| #[trigger]
        disclosed_in_run(trace, n, from, named, d) && same_ignoring_case(d, key)
    ||| exists|d: Seq<char>, j: int, i: int| #[trigger]
        found_in_run(trace, n, j, i, d) && same_ignoring_case(d, key)
}

/// An issue refers to no other but such as the first `n` inputs show to be
/// visible. An issue without fields has none to scrub.
pub open spec fn names_only_visible(trace: Trace, n: int, issue: JsonView) -> bool {
    issue.get("fields"@) is Some ==> forall|k: Seq<char>| #[trigger]
        refers_to(issue, trace.keep.policy.global.link_custom_fields, k) ==> shown_visible(
            trace,
            n,
            k,
        )
}

/// No custom field for links is one of those that a summary shows.
pub open spec fn custom_fields_apart(keep: KeepView) -> bool {
    forall|i: int|
        0 <= i < keep.policy.global.link_custom_fields.len() ==> !summary_field(
            #[trigger] keep.policy.global.link_custom_fields[i],
        )
}

proof fn lemma_shown_later(trace: Trace, n: int, later: int, key: Seq<char>)
    requires
        n <= later,
        shown_visible(trace, n, key),
    ensures
        shown_visible(trace, later, key),
{
    if exists|d: Seq<char>, from: int, named: Set<Seq<char>>| #[trigger]
        disclosed_in_run(trace, n, from, named, d) && same_ignoring_case(d, key) {
        let (d, from, named) = choose|d: Seq<char>, from: int, named: Set<Seq<char>>| #[trigger]
            disclosed_in_run(trace, n, from, named, d) && same_ignoring_case(d, key);
        assert(disclosed_in_run(trace, later, from, named, d));
    } else {
        let (d, j, i) = choose|d: Seq<char>, j: int, i: int| #[trigger]
            found_in_run(trace, n, j, i, d) && same_ignoring_case(d, key);
        assert(found_in_run(trace, later, j, i, d));
    }
}

proof fn lemma_names_later(trace: Trace, n: int, later: int, issue: JsonView)
    requires
        n <= later,
        names_only_visible(trace, n, issue),
    ensures
        names_only_visible(trace, later, issue),
{
    if issue.get("fields"@) is Some {
        assert forall|k: Seq<char>| #[trigger]
            refers_to(
                issue,
                trace.keep.policy.global.link_custom_fields,
                k,
            ) implies shown_visible(trace, later, k) by {
            lemma_shown_later(trace, n, later, k);
        }
    }
}

/// A summary refers to no issue.
proof fn lemma_summary_names_nothing(keep: KeepView, issue: JsonView, key: Seq<char>)
    requires
        custom_fields_apart(keep),
    ensures
        !refers_to(summary_of(issue), keep.policy.global.link_custom_fields, key),
        summary_of(issue).get("fields"@) is Some,
{
    let custom = keep.policy.global.link_custom_fields;
    let summary = summary_of(issue);
    assert(!summary_field("issuelinks"@) && !summary_field("parent"@) && !summary_field(
        "subtasks"@,
    )) by {
        reveal_strlit("issuelinks");
        reveal_strlit("parent");
        reveal_strlit("subtasks");
        reveal_strlit("summary");
        reveal_strlit("status");
        reveal_strlit("priority");
        reveal_strlit("issuetype");
        reveal_strlit("project");
        reveal_strlit("created");
        reveal_strlit("updated");
        assert("issuelinks"@.len() == 10 && "issuelinks"@[0] == 'i');
        assert("parent"@.len() == 6 && "parent"@[0] == 'p');
        assert("subtasks"@.len() == 8 && "subtasks"@[0] == 's');
        assert("summary"@.len() == 7);
        assert("status"@.len() == 6 && "status"@[0] == 's');
        assert("priority"@.len() == 8 && "priority"@[0] == 'p');
        assert("issuetype"@.len() == 9);
        assert("project"@.len() == 7);
        assert("created"@.len() == 7);
        assert("updated"@.len() == 7);
    }
    summary_tells_nothing_else(issue, "issuelinks"@);
    summary_tells_nothing_else(issue, "parent"@);
    summary_tells_nothing_else(issue, "subtasks"@);
    assert forall|i: int| 0 <= i < custom.len() implies !custom_names_at(
        summary.get("fields"@)->0,
        #[trigger] custom[i],
        key,
    ) by {
        summary_tells_nothing_else(issue, custom[i]);
    }
}

// --- fetching one after the other -------------------------------------------

/// The answers so far are those for the first of the wanted keys.
spec fn answered(trace: Trace, n: int, wanted: Seq<Seq<char>>, replies: Seq<Option<JsonView>>) -> bool {
    let k = replies.len() as int;
    &&& k <= wanted.len()
    &&& asked(trace, n, n - k, wanted.take(k))
    &&& replies == trace.documents(n - k, k)
}

/// The call waits for the next of the wanted keys.
spec fn fetching(trace: Trace, n: int, wanted: Seq<Seq<char>>, replies: Seq<Option<JsonView>>) -> bool {
    &&& answered(trace, n, wanted, replies)
    &&& replies.len() < wanted.len()
    &&& trace.after(n).1 == StepView::Call(
        classify_request(
            trace.keep,
            fresh(trace.call, trace.creds),
            wanted[replies.len() as int],
        ),
    )
}

proof fn lemma_nothing_asked(trace: Trace, n: int, wanted: Seq<Seq<char>>)
    requires
        0 <= n,
    ensures
        answered(trace, n, wanted, Seq::empty()),
{
    assert(trace.documents(n, 0) =~= Seq::empty());
}

proof fn lemma_next_answer(
    trace: Trace,
    n: int,
    wanted: Seq<Seq<char>>,
    replies: Seq<Option<JsonView>>,
)
    requires
        fetching(trace, n, wanted, replies),
    ensures
        answered(trace, n + 1, wanted, replies.push(trace.document(n))),
{
    let k = replies.len() as int;
    let from = n - k;
    let more = replies.push(trace.document(n));
    assert(more =~= trace.documents(from, k + 1));
    assert forall|m: int| 0 <= m < k + 1 implies trace.after(from + m).1 == StepView::Call(
        classify_request(
            trace.keep,
            fresh(trace.call, trace.creds),
            #[trigger] wanted.take(k + 1)[m],
        ),
    ) by {
        if m < k {
            assert(wanted.take(k)[m] == wanted[m]);
        }
    }
}

/// What the answers show to be disclosable, a run has shown to be visible.
proof fn lemma_disclosed(
    trace: Trace,
    n: int,
    named: Set<Seq<char>>,
    replies: Seq<Option<JsonView>>,
    key: Seq<char>,
)
    requires
        answered(trace, n, fetch_list(sorted(named)), replies),
        replies.len() == fetch_list(sorted(named)).len(),
        admits(
            disclosed_keys(
                trace.keep.policy,
                named,
                replies,
                trace.after(n).0.caller,
                trace.time(n),
            ),
            key,
        ),
    ensures
        shown_visible(trace, n, key),
{
    let wanted = fetch_list(sorted(named));
    let set = disclosed_keys(
        trace.keep.policy,
        named,
        replies,
        trace.after(n).0.caller,
        trace.time(n),
    );
    let d = choose|d: Seq<char>| #[trigger] set.contains(d) && same_ignoring_case(d, key);
    assert(wanted.take(wanted.len() as int) =~= wanted);
    assert(disclosed_in_run(trace, n, n - wanted.len(), named, d));
}

// --- issue details ----------------------------------------------------------

/// An issue of which at least the summary may be shown.
pub open spec fn visible(entry: Option<(AccessView, JsonView)>) -> bool {
    match entry {
        Some((access, body)) => !(body is Null) && access.allows(Capability::Summary),
        None => false,
    }
}

/// Among issue details, an issue that the policy denies and one that does not
/// exist are told apart by nothing: the key of either is listed as restricted.
pub proof fn details_of_denied_and_missing_look_alike(keep: KeepView, run: RunView, info: InfoView)
    requires
        info.waits(),
        !visible(info.entries[info.next]),
    ensures
        info_goes_on(keep, run, info) == info_goes_on(
            keep,
            run,
            InfoView {
                next: info.next + 1,
                restricted: info.restricted.push(info.keys[info.next]),
                ..info
            },
        ),
{
}

/// The keys of which nothing may be shown, among the first `n`.
pub open spec fn invisible_keys(
    keys: Seq<Seq<char>>,
    entries: Seq<Option<(AccessView, JsonView)>>,
    n: int,
) -> Seq<Seq<char>>
    decreases n,
{
    if n <= 0 {
        Seq::empty()
    } else if visible(entries[n - 1]) {
        invisible_keys(keys, entries, n - 1)
    } else {
        invisible_keys(keys, entries, n - 1).push(keys[n - 1])
    }
}

/// The places of the entries of which something may be shown, among the first
/// `n`.
pub open spec fn visible_places(entries: Seq<Option<(AccessView, JsonView)>>, n: int) -> Seq<int>
    decreases n,
{
    if n <= 0 {
        Seq::empty()
    } else if visible(entries[n - 1]) {
        visible_places(entries, n - 1).push(n - 1)
    } else {
        visible_places(entries, n - 1)
    }
}

/// Input `j` is the answer to the request for the whole issue `key`, and `full`
/// is what it leaves of the issue once gated fields are taken out. Where there
/// was no such answer, the body that the issue was classified by stands in.
pub open spec fn whole_came(
    trace: Trace,
    j: int,
    key: Seq<char>,
    access: AccessView,
    body: JsonView,
    full: JsonView,
) -> bool {
    &&& 0 <= j
    &&& trace.after(j).1 == StepView::Call(
        issue_request(trace.keep.client, trace.creds, key, None),
    )
    &&& full == ungated_issue(
        access,
        match trace.document(j) {
            Some(v) => v,
            None => body,
        },
    )
}

/// What is served of an issue that may be read: the whole of it, without gated
/// fields, and without references to such issues as the answers from input
/// `j + 1` on do not show to be visible.
pub open spec fn whole_served(
    trace: Trace,
    n: int,
    j: int,
    key: Seq<char>,
    access: AccessView,
    body: JsonView,
    full: JsonView,
    issue: JsonView,
) -> bool {
    let named = issue_keys(trace.keep.policy, key, full);
    let wanted = fetch_list(sorted(named));
    let to = j + 1 + wanted.len();
    &&& whole_came(trace, j, key, access, body, full)
    &&& asked(trace, n, j + 1, wanted)
    &&& issue == scrubbed(
        full,
        trace.keep.policy.global.link_custom_fields,
        disclosed_keys(
            trace.keep.policy,
            named,
            trace.documents(j + 1, wanted.len() as int),
            trace.after(to).0.caller,
            trace.time(to),
        ),
    )
}

/// What is served for a key of which something may be shown: where the issue
/// may be read the whole of it, scrubbed, and the summary otherwise.
pub open spec fn detail_served(
    trace: Trace,
    n: int,
    key: Seq<char>,
    entry: Option<(AccessView, JsonView)>,
    issue: JsonView,
) -> bool {
    match entry {
        Some((access, body)) => if access.allows(Capability::Read) {
            exists|j: int, full: JsonView| #[trigger]
                whole_served(trace, n, j, key, access, body, full, issue)
        } else {
            issue == summary_of(body)
        },
        None => false,
    }
}

/// An entry of an issue that may be read.
pub open spec fn readable(entry: Option<(AccessView, JsonView)>) -> bool {
    entry matches Some((access, _)) && access.allows(Capability::Read)
}

/// The entries are what the answers of the site say of the keys, which were
/// asked for from input `from` on.
pub open spec fn assessed_in_run(
    trace: Trace,
    n: int,
    from: int,
    keys: Seq<Seq<char>>,
    entries: Seq<Option<(AccessView, JsonView)>>,
) -> bool {
    let wanted = fetch_list(keys);
    let to = from + wanted.len();
    &&& asked(trace, n, from, wanted)
    &&& entries == Seq::new(
        keys.len(),
        |i: int|
            assessment_of(
                trace.keep.policy,
                keys,
                trace.documents(from, wanted.len() as int),
                trace.after(to).0.caller,
                trace.time(to),
                keys[i],
            ),
    )
}

/// How far issue details got after the first `n` inputs: the keys that are
/// listed as restricted are those of which nothing may be shown; for each of
/// the others there is, in the order of the keys, what is to be served of it;
/// and none of that names an issue that the answers do not show to be visible,
/// unless a summary does in a custom link field that a summary shows.
pub open spec fn details_in_order(
    trace: Trace,
    n: int,
    keys: Seq<Seq<char>>,
    info: InfoView,
) -> bool {
    &&& info.sound()
    &&& info.keys == keys
    &&& exists|from: int| #[trigger] assessed_in_run(trace, n, from, keys, info.entries)
    &&& info.restricted == invisible_keys(keys, info.entries, info.next)
    &&& info.issues.len() + info.restricted.len() == info.next
    &&& info.issues.len() == visible_places(info.entries, info.next).len()
    &&& forall|i: int|
        0 <= i < info.issues.len() ==> detail_in_order(
            trace,
            n,
            keys,
            info,
            #[trigger] info.issues[i],
            i,
        )
}

/// Issue `i` among the details is what is to be served for its key, and names
/// none but visible issues.
pub open spec fn detail_in_order(
    trace: Trace,
    n: int,
    keys: Seq<Seq<char>>,
    info: InfoView,
    issue: JsonView,
    i: int,
) -> bool {
    let place = visible_places(info.entries, info.next)[i];
    &&& detail_served(trace, n, keys[place], info.entries[place], issue)
    &&& custom_fields_apart(trace.keep) || readable(info.entries[place]) ==> names_only_visible(
        trace,
        n,
        issue,
    )
}

/// A result of issue details.
pub open spec fn details_result(info: InfoView) -> JsonView {
    JsonView::Object(
        map![
            "issues"@ => JsonView::Array(info.issues),
            "restricted"@ => text_array(info.restricted),
        ],
    )
}

/// The keys of a call for issue details.
pub open spec fn details_keys(call: ToolCall) -> Seq<Seq<char>> {
    cleaned(texts(call->IssueInfo_0.keys@))
}

/// A run keeps its call, its credentials and its caller.
spec fn same_call(a: RunView, b: RunView) -> bool {
    a.call == b.call && a.creds == b.creds && a.caller == b.caller
}

/// The whole issue that comes next came with input `j`.
spec fn whole_pending(
    trace: Trace,
    j: int,
    keys: Seq<Seq<char>>,
    info: InfoView,
    access: AccessView,
    full: JsonView,
    named: Set<Seq<char>>,
) -> bool {
    let key = keys[info.next];
    &&& visible(info.entries[info.next])
    &&& access.allows(Capability::Read)
    &&& info.entries[info.next] matches Some((granted, body)) && granted == access && whole_came(
        trace,
        j,
        key,
        access,
        body,
        full,
    )
    &&& named == issue_keys(trace.keep.policy, key, full)
}

/// How far a call for issue details got.
spec fn details_so_far(trace: Trace, n: int, keys: Seq<Seq<char>>) -> bool {
    let after = trace.after(n);
    &&& after.0.call == trace.call
    &&& after.0.creds == trace.creds
    &&& match after.0.stage {
        StageView::Identity => after.1 is Call,
        StageView::Keys { keys: k, replies } => {
            &&& k == keys
            &&& fetching(trace, n, fetch_list(keys), replies)
        },
        StageView::Full { info, access, body } => {
            &&& details_in_order(trace, n, keys, info)
            &&& info.waits()
            &&& info.entries[info.next] == Some((access, body))
            &&& visible(info.entries[info.next])
            &&& access.allows(Capability::Read)
            &&& after.1 == StepView::Call(
                issue_request(trace.keep.client, trace.creds, keys[info.next], None),
            )
        },
        StageView::Linked { named, replies, pending: PendingView::Issue { info, access, body } } => {
            &&& details_in_order(trace, n, keys, info)
            &&& info.waits()
            &&& whole_pending(trace, n - replies.len() - 1, keys, info, access, body, named)
            &&& fetching(trace, n, fetch_list(sorted(named)), replies)
        },
        StageView::Done => match after.1 {
            StepView::Finish(OutcomeView::Failure(_)) => true,
            StepView::Finish(OutcomeView::Success(result)) => details_done(
                trace,
                n,
                keys,
                result,
            ),
            _ => false,
        },
        _ => false,
    }
}

/// A result of issue details is in order.
pub open spec fn details_done(trace: Trace, n: int, keys: Seq<Seq<char>>, result: JsonView) -> bool {
    exists|info: InfoView| #[trigger]
        details_in_order(trace, n, keys, info) && info.next == keys.len() && result
            == details_result(info)
}

/// Where issue details go on from there, they stay in order.
spec fn details_follow(
    trace: Trace,
    n: int,
    keys: Seq<Seq<char>>,
    run: RunView,
    after: (RunView, StepView),
) -> bool {
    &&& same_call(after.0, run)
    &&& match after.0.stage {
        StageView::Full { info, access, body } => {
            &&& details_in_order(trace, n, keys, info)
            &&& info.waits()
            &&& info.entries[info.next] == Some((access, body))
            &&& visible(info.entries[info.next])
            &&& access.allows(Capability::Read)
            &&& after.1 == StepView::Call(
                issue_request(trace.keep.client, trace.creds, keys[info.next], None),
            )
        },
        StageView::Done => after.1 matches StepView::Finish(OutcomeView::Success(result))
            && details_done(trace, n, keys, result),
        _ => false,
    }
}

/// What was in order stays so when the next key has been dealt with.
proof fn lemma_details_kept(
    trace: Trace,
    n: int,
    keys: Seq<Seq<char>>,
    info: InfoView,
    next: InfoView,
)
    requires
        details_in_order(trace, n, keys, info),
        info.waits(),
        next.entries == info.entries,
        next.next == info.next + 1,
    ensures
        forall|i: int|
            0 <= i < info.issues.len() ==> detail_in_order(
                trace,
                n,
                keys,
                next,
                #[trigger] info.issues[i],
                i,
            ),
        visible_places(next.entries, next.next) == if visible(info.entries[info.next]) {
            visible_places(info.entries, info.next).push(info.next)
        } else {
            visible_places(info.entries, info.next)
        },
{
    assert forall|i: int| 0 <= i < info.issues.len() implies detail_in_order(
        trace,
        n,
        keys,
        next,
        #[trigger] info.issues[i],
        i,
    ) by {
        assert(visible_places(next.entries, next.next)[i] == visible_places(
            info.entries,
            info.next,
        )[i]);
    }
}

/// Details stay in order when what is to be served for the next key has been
/// put with them.
proof fn lemma_details_pushed(
    trace: Trace,
    n: int,
    keys: Seq<Seq<char>>,
    info: InfoView,
    next: InfoView,
    issue: JsonView,
)
    requires
        details_in_order(trace, n, keys, info),
        info.waits(),
        visible(info.entries[info.next]),
        detail_served(trace, n, keys[info.next], info.entries[info.next], issue),
        custom_fields_apart(trace.keep) || readable(info.entries[info.next])
            ==> names_only_visible(trace, n, issue),
        next.keys == info.keys,
        next.entries == info.entries,
        next.next == info.next + 1,
        next.issues == info.issues.push(issue),
        next.restricted == info.restricted,
    ensures
        details_in_order(trace, n, keys, next),
{
    let from = choose|from: int| #[trigger] assessed_in_run(trace, n, from, keys, info.entries);
    assert(assessed_in_run(trace, n, from, keys, next.entries));
    lemma_details_kept(trace, n, keys, info, next);
    assert(detail_in_order(trace, n, keys, next, issue, info.issues.len() as int));
    assert forall|i: int| 0 <= i < next.issues.len() implies detail_in_order(
        trace,
        n,
        keys,
        next,
        #[trigger] next.issues[i],
        i,
    ) by {
        if i < info.issues.len() {
            assert(next.issues[i] == info.issues[i]);
        }
    }
}

proof fn lemma_details_follow(
    trace: Trace,
    n: int,
    keys: Seq<Seq<char>>,
    run: RunView,
    info: InfoView,
)
    requires
        details_in_order(trace, n, keys, info),
        run.creds == trace.creds,
    ensures
        details_follow(trace, n, keys, run, info_goes_on(trace.keep, run, info)),
    decreases info.keys.len() - info.next,
{
    let keep = trace.keep;
    if info.next < info.keys.len() {
        let key = info.keys[info.next];
        let entry = info.entries[info.next];
        let from = choose|from: int| #[trigger]
            assessed_in_run(trace, n, from, keys, info.entries);
        if !visible(entry) {
            let skipped = InfoView {
                next: info.next + 1,
                restricted: info.restricted.push(key),
                ..info
            };
            details_of_denied_and_missing_look_alike(keep, run, info);
            assert(assessed_in_run(trace, n, from, keys, skipped.entries));
            lemma_details_kept(trace, n, keys, info, skipped);
            assert(details_in_order(trace, n, keys, skipped));
            lemma_details_follow(trace, n, keys, run, skipped);
        } else {
            let (access, body) = entry->0;
            if !access.allows(Capability::Read) {
                let summary = summary_of(body);
                let noted = RunView { cell: served_noted(run.cell, access), ..run };
                let served = InfoView {
                    next: info.next + 1,
                    issues: info.issues.push(summary),
                    ..info
                };
                if custom_fields_apart(keep) {
                    assert(names_only_visible(trace, n, summary)) by {
                        assert forall|k: Seq<char>| #[trigger]
                            refers_to(
                                summary,
                                keep.policy.global.link_custom_fields,
                                k,
                            ) implies shown_visible(trace, n, k) by {
                            lemma_summary_names_nothing(keep, body, k);
                        }
                    }
                }
                lemma_details_pushed(trace, n, keys, info, served, summary);
                lemma_details_follow(trace, n, keys, noted, served);
            }
        }
    } else {
        assert(info_goes_on(keep, run, info).1 == StepView::Finish(
            OutcomeView::Success(details_result(info)),
        ));
    }
}

proof fn lemma_details_later(trace: Trace, n: int, later: int, keys: Seq<Seq<char>>, info: InfoView)
    requires
        n <= later,
        details_in_order(trace, n, keys, info),
    ensures
        details_in_order(trace, later, keys, info),
{
    let from = choose|from: int| #[trigger] assessed_in_run(trace, n, from, keys, info.entries);
    assert(assessed_in_run(trace, later, from, keys, info.entries));
    assert forall|i: int| 0 <= i < info.issues.len() implies detail_in_order(
        trace,
        later,
        keys,
        info,
        #[trigger] info.issues[i],
        i,
    ) by {
        let issue = info.issues[i];
        let place = visible_places(info.entries, info.next)[i];
        if custom_fields_apart(trace.keep) || readable(info.entries[place]) {
            lemma_names_later(trace, n, later, issue);
        }
        if readable(info.entries[place]) {
            let (access, body) = info.entries[place]->0;
            let (j, full) = choose|j: int, full: JsonView| #[trigger]
                whole_served(trace, n, j, keys[place], access, body, full, issue);
            assert(whole_served(trace, later, j, keys[place], access, body, full, issue));
        }
    }
}

proof fn lemma_details_fetched(
    trace: Trace,
    n: int,
    keys: Seq<Seq<char>>,
    run: RunView,
    replies: Seq<Option<JsonView>>,
)
    requires
        answered(trace, n, fetch_list(keys), replies),
        trace.after(n) == info_fetched(trace.keep, run, keys, replies, trace.time(n)),
        run.call == trace.call,
        run.creds == trace.creds,
    ensures
        details_so_far(trace, n, keys),
{
    let wanted = fetch_list(keys);
    if replies.len() >= wanted.len() {
        let info = InfoView {
            keys,
            entries: Seq::new(
                keys.len(),
                |i: int|
                    assessment_of(
                        trace.keep.policy,
                        keys,
                        replies,
                        run.caller,
                        trace.time(n),
                        keys[i],
                    ),
            ),
            next: 0,
            issues: Seq::empty(),
            restricted: Seq::empty(),
            scrubbed: Seq::empty(),
        };
        lemma_info_keeps_call(trace.keep, run, info);
        assert(wanted.take(wanted.len() as int) =~= wanted);
        assert(assessed_in_run(trace, n, n - wanted.len(), keys, info.entries));
        lemma_details_follow(trace, n, keys, run, info);
    }
}

/// A scrubbed issue names none but visible issues.
proof fn lemma_scrubbed_names(
    trace: Trace,
    n: int,
    named: Set<Seq<char>>,
    replies: Seq<Option<JsonView>>,
    body: JsonView,
)
    requires
        answered(trace, n, fetch_list(sorted(named)), replies),
        replies.len() == fetch_list(sorted(named)).len(),
    ensures
        names_only_visible(
            trace,
            n,
            scrubbed(
                body,
                trace.keep.policy.global.link_custom_fields,
                disclosed_keys(
                    trace.keep.policy,
                    named,
                    replies,
                    trace.after(n).0.caller,
                    trace.time(n),
                ),
            ),
        ),
{
    let custom = trace.keep.policy.global.link_custom_fields;
    let disclosable = disclosed_keys(
        trace.keep.policy,
        named,
        replies,
        trace.after(n).0.caller,
        trace.time(n),
    );
    let issue = scrubbed(body, custom, disclosable);
    if issue.get("fields"@) is Some {
        assert forall|k: Seq<char>| #[trigger] refers_to(issue, custom, k) implies shown_visible(
            trace,
            n,
            k,
        ) by {
            scrubbed_issue_names_only_disclosable(body, custom, disclosable, k);
            lemma_disclosed(trace, n, named, replies, k);
        }
    }
}

/// Once all that a whole issue names is assessed, what is left of it is what is
/// to be served.
proof fn lemma_whole_served(
    trace: Trace,
    n: int,
    keys: Seq<Seq<char>>,
    caller: Option<Seq<char>>,
    named: Set<Seq<char>>,
    replies: Seq<Option<JsonView>>,
    info: InfoView,
    access: AccessView,
    full: JsonView,
)
    requires
        answered(trace, n, fetch_list(sorted(named)), replies),
        replies.len() == fetch_list(sorted(named)).len(),
        whole_pending(trace, n - replies.len() - 1, keys, info, access, full, named),
        trace.after(n).0.caller == caller,
    ensures
        detail_served(
            trace,
            n,
            keys[info.next],
            info.entries[info.next],
            scrubbed(
                full,
                trace.keep.policy.global.link_custom_fields,
                disclosed_keys(trace.keep.policy, named, replies, caller, trace.time(n)),
            ),
        ),
{
    let wanted = fetch_list(sorted(named));
    let j = n - replies.len() - 1;
    let (_, body) = info.entries[info.next]->0;
    assert(wanted.take(wanted.len() as int) =~= wanted);
    assert(whole_served(
        trace,
        n,
        j,
        keys[info.next],
        access,
        body,
        full,
        scrubbed(
            full,
            trace.keep.policy.global.link_custom_fields,
            disclosed_keys(trace.keep.policy, named, replies, caller, trace.time(n)),
        ),
    ));
}

proof fn lemma_details_linked(
    trace: Trace,
    n: int,
    keys: Seq<Seq<char>>,
    run: RunView,
    named: Set<Seq<char>>,
    replies: Seq<Option<JsonView>>,
    info: InfoView,
    access: AccessView,
    body: JsonView,
)
    requires
        answered(trace, n, fetch_list(sorted(named)), replies),
        trace.after(n) == linked_fetched(
            trace.keep,
            run,
            named,
            replies,
            PendingView::Issue { info, access, body },
            trace.time(n),
        ),
        run.call == trace.call,
        run.creds == trace.creds,
        details_in_order(trace, n, keys, info),
        info.waits(),
        whole_pending(trace, n - replies.len() - 1, keys, info, access, body, named),
    ensures
        details_so_far(trace, n, keys),
{
    let wanted = fetch_list(sorted(named));
    if replies.len() >= wanted.len() {
        let disclosable = disclosed_keys(
            trace.keep.policy,
            named,
            replies,
            run.caller,
            trace.time(n),
        );
        let custom = trace.keep.policy.global.link_custom_fields;
        let issue = scrubbed(body, custom, disclosable);
        let noted = RunView { cell: served_noted(run.cell, access), ..run };
        let next = InfoView {
            next: info.next + 1,
            issues: info.issues.push(issue),
            scrubbed: info.scrubbed + sorted(
                Set::new(|k: Seq<char>| scrubbed_key(body, custom, disclosable, k)),
            ),
            ..info
        };
        assert(trace.after(n) == info_goes_on(trace.keep, noted, next));
        lemma_info_keeps_call(trace.keep, noted, next);
        lemma_scrubbed_names(trace, n, named, replies, body);
        lemma_whole_served(trace, n, keys, run.caller, named, replies, info, access, body);
        lemma_details_pushed(trace, n, keys, info, next, issue);
        lemma_details_follow(trace, n, keys, noted, next);
    }
}

proof fn lemma_details_identified(trace: Trace, n: int, run: RunView)
    requires
        trace.call is IssueInfo,
        0 <= n,
        trace.after(n) == identified(trace.keep, run, trace.time(n)),
        run.call == trace.call,
        run.creds == trace.creds,
    ensures
        details_so_far(trace, n, details_keys(trace.call)),
{
    let keys = details_keys(trace.call);
    lemma_nothing_asked(trace, n, fetch_list(keys));
    if keys.len() <= MAX_ASSESS_KEYS {
        lemma_details_fetched(trace, n, keys, run, Seq::empty());
    }
}

proof fn lemma_details_begun(trace: Trace)
    requires
        trace.call is IssueInfo,
    ensures
        details_so_far(trace, 0, details_keys(trace.call)),
{
    if !asks_identity(trace.keep.policy) {
        lemma_details_identified(trace, 0, fresh(trace.call, trace.creds));
    }
}

proof fn lemma_details_whole(trace: Trace, n: int, info: InfoView, access: AccessView, body: JsonView)
    requires
        trace.call is IssueInfo,
        0 < n,
        details_so_far(trace, n - 1, details_keys(trace.call)),
        trace.after(n - 1).0.stage == (StageView::Full { info, access, body }),
    ensures
        details_so_far(trace, n, details_keys(trace.call)),
{
    let keys = details_keys(trace.call);
    let before = trace.after(n - 1).0;
    let idle = RunView { stage: StageView::Done, ..before };
    let full = ungated_issue(
        access,
        match trace.inputs[n - 1].0.document() {
            Ok(v) => v,
            Err(_) => body,
        },
    );
    let named = issue_keys(trace.keep.policy, info.keys[info.next], full);
    lemma_details_later(trace, n - 1, n, keys, info);
    lemma_nothing_asked(trace, n, fetch_list(sorted(named)));
    lemma_details_linked(trace, n, keys, idle, named, Seq::empty(), info, access, full);
}

proof fn lemma_details_next(trace: Trace, n: int)
    requires
        trace.call is IssueInfo,
        0 < n,
        details_so_far(trace, n - 1, details_keys(trace.call)),
    ensures
        details_so_far(trace, n, details_keys(trace.call)),
{
    let keep = trace.keep;
    let keys = details_keys(trace.call);
    let before = trace.after(n - 1).0;
    let idle = RunView { stage: StageView::Done, ..before };
    let document = trace.inputs[n - 1].0.document();
    match before.stage {
        StageView::Identity => {
            let known = RunView {
                caller: resolved(keep.policy, account_id_of(document)),
                ..idle
            };
            lemma_details_identified(trace, n, known);
        },
        StageView::Keys { keys: k, replies } => {
            lemma_next_answer(trace, n - 1, fetch_list(keys), replies);
            lemma_details_fetched(trace, n, keys, idle, replies.push(trace.document(n - 1)));
        },
        StageView::Full { info, access, body } => {
            lemma_details_whole(trace, n, info, access, body);
        },
        StageView::Linked {
            named,
            replies,
            pending: PendingView::Issue { info, access, body },
        } => {
            lemma_details_later(trace, n - 1, n, keys, info);
            lemma_next_answer(trace, n - 1, fetch_list(sorted(named)), replies);
            lemma_details_linked(
                trace,
                n,
                keys,
                idle,
                named,
                replies.push(trace.document(n - 1)),
                info,
                access,
                body,
            );
        },
        _ => {
            assert(before.stage is Done);
            lemma_nothing_after_the_end(
                keep,
                before,
                trace.inputs[n - 1].0,
                trace.inputs[n - 1].1,
            );
        },
    }
}

proof fn lemma_details(trace: Trace, n: int)
    requires
        trace.call is IssueInfo,
        0 <= n,
    ensures
        details_so_far(trace, n, details_keys(trace.call)),
    decreases n,
{
    if n == 0 {
        lemma_details_begun(trace);
    } else {
        lemma_details(trace, n - 1);
        lemma_details_next(trace, n);
    }
}

/// What may be disclosed once all that an issue names is assessed, the run has
/// shown to be visible.
pub(crate) proof fn lemma_details_disclosed(
    trace: Trace,
    n: int,
    named: Set<Seq<char>>,
    replies: Seq<Option<JsonView>>,
    info: InfoView,
    access: AccessView,
    body: JsonView,
    key: Seq<char>,
)
    requires
        trace.call is IssueInfo,
        0 < n,
        trace.after(n - 1).0.stage == (StageView::Linked {
            named,
            replies,
            pending: PendingView::Issue { info, access, body },
        }),
        replies.len() + 1 >= fetch_list(sorted(named)).len(),
        admits(
            disclosed_keys(
                trace.keep.policy,
                named,
                replies.push(trace.document(n - 1)),
                trace.after(n - 1).0.caller,
                trace.time(n),
            ),
            key,
        ),
    ensures
        shown_visible(trace, n, key),
{
    lemma_details(trace, n - 1);
    let before = trace.after(n - 1).0;
    let idle = RunView { stage: StageView::Done, ..before };
    let more = replies.push(trace.document(n - 1));
    lemma_next_answer(trace, n - 1, fetch_list(sorted(named)), replies);
    let custom = trace.keep.policy.global.link_custom_fields;
    let disclosable = disclosed_keys(
        trace.keep.policy,
        named,
        more,
        idle.caller,
        trace.time(n),
    );
    let noted = RunView { cell: served_noted(idle.cell, access), ..idle };
    let next = InfoView {
        next: info.next + 1,
        issues: info.issues.push(scrubbed(body, custom, disclosable)),
        scrubbed: info.scrubbed + sorted(
            Set::new(|k: Seq<char>| scrubbed_key(body, custom, disclosable, k)),
        ),
        ..info
    };
    assert(trace.after(n) == info_goes_on(trace.keep, noted, next));
    lemma_info_keeps_call(trace.keep, noted, next);
    lemma_disclosed(trace, n, named, more, key);
}

/// Issue details show what the policy lets the caller see, and no more.
/// Whatever the site answers, a result lists as restricted exactly the keys of
/// which, by these answers, nothing may be shown. For each of the other keys it
/// holds, in order, the whole issue where that may be read, scrubbed and without
/// gated fields, and the summary otherwise. None of these issues refers, in its
/// links, parent, subtasks or custom link fields, to an issue that the answers
/// do not show to be visible, unless a summary does in a custom link field that
/// is a field of the summary.
pub proof fn details_show_only_visible_issues(trace: Trace, n: int)
    requires
        0 <= n <= trace.inputs.len(),
        trace.call is IssueInfo,
        trace.after(n).1 matches StepView::Finish(OutcomeView::Success(_)),
    ensures
        details_done(
            trace,
            n,
            details_keys(trace.call),
            trace.after(n).1->Finish_0->Success_0,
        ),
{
    lemma_details(trace, n);
}

/// The whole body of an issue is asked for only where the answers of the site
/// show that the caller may read the issue; the request is for that issue.
pub proof fn whole_issue_is_asked_for_only_where_readable(trace: Trace, n: int)
    requires
        0 <= n <= trace.inputs.len(),
        trace.call is IssueInfo,
        trace.after(n).0.stage is Full,
    ensures
        ({
            let info = trace.after(n).0.stage->Full_info;
            &&& details_in_order(trace, n, details_keys(trace.call), info)
            &&& info.waits()
            &&& readable(info.entries[info.next])
            &&& trace.after(n).1 == StepView::Call(
                issue_request(
                    trace.keep.client,
                    trace.creds,
                    details_keys(trace.call)[info.next],
                    None,
                ),
            )
        }),
{
    lemma_details(trace, n);
}

// --- searching --------------------------------------------------------------

/// The scan is that of the search whose result input `j` is.
pub open spec fn scanned_in_run(trace: Trace, n: int, j: int, scan: ScanView) -> bool {
    &&& 0 <= j < n
    &&& trace.after(j).0.stage is Search
    &&& trace.document(j) is Some
    &&& scan == scan_of(
        trace.keep.policy,
        trace.document(j)->0,
        trace.after(j).0.stage->Search_limit,
        trace.after(j).0.caller,
        trace.inputs[j].1,
    )
}

/// The result of a search: the served issues of a scan, none of which names an
/// issue that the answers do not show to be visible.
pub open spec fn search_done(trace: Trace, n: int, result: JsonView) -> bool {
    exists|j: int, scan: ScanView, extra: Set<Seq<char>>|
        {
            let window = #[trigger] window_of(trace.keep.policy, scan, extra);
            &&& #[trigger] scanned_in_run(trace, n, j, scan)
            &&& disclosed_from(trace, n, j + 1, scan.candidates, extra)
            &&& result == search_result(window)
            &&& trace.after(n).0.cell == search_noted(blank_cell(), window)
            &&& forall|i: int|
                0 <= i < window.issues.len() ==> names_only_visible(
                    trace,
                    n,
                    #[trigger] window.issues[i],
                )
            &&& forall|k: Seq<char>| #[trigger]
                admits(scan.disclosable.union(extra), k) ==> shown_visible(trace, n, k)
        }
}

/// How far a search got.
spec fn search_so_far(trace: Trace, n: int) -> bool {
    let after = trace.after(n);
    &&& after.0.call == trace.call
    &&& after.0.creds == trace.creds
    &&& after.0.stage is Done || after.0.cell == blank_cell()
    &&& match after.0.stage {
        StageView::Identity => after.1 is Call,
        StageView::Filter => after.1 is Call,
        StageView::Search { .. } => after.1 is Call,
        StageView::Linked { named, replies, pending: PendingView::Search(scan) } => {
            &&& named == scan.candidates
            &&& scanned_in_run(trace, n, n - replies.len() - 1, scan)
            &&& fetching(trace, n, fetch_list(sorted(named)), replies)
        },
        StageView::Done => match after.1 {
            StepView::Finish(OutcomeView::Failure(_)) => true,
            StepView::Finish(OutcomeView::Success(result)) => search_done(trace, n, result),
            _ => false,
        },
        _ => false,
    }
}

/// What a scan shows to be disclosable, the run has shown to be visible.
proof fn lemma_scanned(trace: Trace, n: int, j: int, scan: ScanView, d: Seq<char>)
    requires
        scanned_in_run(trace, n, j, scan),
        scan.disclosable.contains(d),
    ensures
        exists|i: int| #[trigger] found_in_run(trace, n, j, i, d),
{
    let policy = trace.keep.policy;
    let issues = found(trace.document(j)->0);
    let caller = trace.after(j).0.caller;
    let now = trace.inputs[j].1;
    let all = served_list(policy, issues, caller, now);
    let a = choose|a: int|
        0 <= a < all.len() && (#[trigger] all[a]).text_at("key"@) == Some(d);
    served_issues_are_allowed(policy, issues, caller, now, a);
    let i = choose|i: int|
        0 <= i < issues.len() && served_view(policy, #[trigger] issues[i], caller, now) == Some(
            all[a],
        );
    lemma_summary_key(issues[i]);
    assert(found_in_run(trace, n, j, i, d));
}

/// A summary shows the key of its issue.
proof fn lemma_summary_key(issue: JsonView)
    ensures
        summary_of(issue).text_at("key"@) == issue.text_at("key"@),
{
    reveal_strlit("key");
    reveal_strlit("id");
    reveal_strlit("_redacted");
    reveal_strlit("fields");
    assert("key"@.len() == 3);
    assert("id"@.len() == 2);
    assert("_redacted"@.len() == 9);
    assert("fields"@.len() == 6);
}

proof fn lemma_search_linked(
    trace: Trace,
    n: int,
    run: RunView,
    named: Set<Seq<char>>,
    replies: Seq<Option<JsonView>>,
    scan: ScanView,
)
    requires
        answered(trace, n, fetch_list(sorted(named)), replies),
        trace.after(n) == linked_fetched(
            trace.keep,
            run,
            named,
            replies,
            PendingView::Search(scan),
            trace.time(n),
        ),
        run.call == trace.call,
        run.creds == trace.creds,
        run.cell == blank_cell(),
        named == scan.candidates,
        scanned_in_run(trace, n, n - replies.len() - 1, scan),
    ensures
        search_so_far(trace, n),
{
    let wanted = fetch_list(sorted(named));
    let j = n - replies.len() - 1;
    if replies.len() >= wanted.len() {
        let policy = trace.keep.policy;
        let custom = policy.global.link_custom_fields;
        let extra = disclosed_keys(policy, named, replies, run.caller, trace.time(n));
        let window = window_of(policy, scan, extra);
        let all = scan.disclosable.union(extra);
        assert forall|k: Seq<char>| #[trigger] admits(all, k) implies shown_visible(
            trace,
            n,
            k,
        ) by {
            let d = choose|d: Seq<char>| #[trigger] all.contains(d) && same_ignoring_case(d, k);
            if scan.disclosable.contains(d) {
                lemma_scanned(trace, n, j, scan, d);
                let a = choose|a: int| #[trigger] found_in_run(trace, n, j, a, d);
                assert(found_in_run(trace, n, j, a, d));
            } else {
                assert(extra.contains(d));
                assert(admits(extra, k));
                lemma_disclosed(trace, n, named, replies, k);
            }
        }
        assert forall|i: int| 0 <= i < window.issues.len() implies names_only_visible(
            trace,
            n,
            #[trigger] window.issues[i],
        ) by {
            let issue = window.issues[i];
            if issue.get("fields"@) is Some {
                assert forall|k: Seq<char>| #[trigger]
                    refers_to(issue, custom, k) implies shown_visible(trace, n, k) by {
                    search_window_names_only_disclosable(policy, scan, extra, i, k);
                }
            }
        }
        assert(scanned_in_run(trace, n, j, scan));
        assert(wanted.take(wanted.len() as int) =~= wanted);
        assert(disclosed_from(trace, n, j + 1, named, extra));
        assert(search_done(trace, n, search_result(window)));
    }
}

proof fn lemma_search_found(trace: Trace, n: int)
    requires
        0 < n,
        search_so_far(trace, n - 1),
        trace.after(n - 1).0.stage is Search,
    ensures
        search_so_far(trace, n),
{
    let before = trace.after(n - 1).0;
    let idle = RunView { stage: StageView::Done, ..before };
    let (event, now) = trace.inputs[n - 1];
    if let StageView::Search { query, limit, retried } = before.stage {
        if let Ok(envelope) = event.document() {
            let scan = scan_of(trace.keep.policy, envelope, limit, before.caller, now);
            lemma_nothing_asked(trace, n, fetch_list(sorted(scan.candidates)));
            assert(scanned_in_run(trace, n, n - 1, scan));
            lemma_search_linked(trace, n, idle, scan.candidates, Seq::empty(), scan);
        }
    }
}

proof fn lemma_search(trace: Trace, n: int)
    requires
        trace.call is IssuesSearch || trace.call is SearchFilter,
        0 <= n,
    ensures
        search_so_far(trace, n),
    decreases n,
{
    if n > 0 {
        lemma_search(trace, n - 1);
        let before = trace.after(n - 1).0;
        let idle = RunView { stage: StageView::Done, ..before };
        match before.stage {
            StageView::Search { .. } => {
                lemma_search_found(trace, n);
            },
            StageView::Linked { named, replies, pending: PendingView::Search(scan) } => {
                lemma_next_answer(trace, n - 1, fetch_list(sorted(named)), replies);
                lemma_search_linked(
                    trace,
                    n,
                    idle,
                    named,
                    replies.push(trace.document(n - 1)),
                    scan,
                );
            },
            StageView::Done => {
                lemma_nothing_after_the_end(
                    trace.keep,
                    before,
                    trace.inputs[n - 1].0,
                    trace.inputs[n - 1].1,
                );
            },
            _ => {},
        }
    }
}

/// A search shows what the policy lets the caller see, and no more: a result is
/// made of the issues to serve of a page that the site returned, and none of
/// them refers to an issue that the answers of the site do not show to be
/// visible.
pub proof fn search_shows_only_visible_issues(trace: Trace, n: int)
    requires
        0 <= n <= trace.inputs.len(),
        trace.call is IssuesSearch || trace.call is SearchFilter,
        trace.after(n).1 matches StepView::Finish(OutcomeView::Success(_)),
    ensures
        search_done(trace, n, trace.after(n).1->Finish_0->Success_0),
{
    lemma_search(trace, n);
}

/// A search is silent about what it left out: its result has two members, and
/// hangs on nothing but the issues and the token of the next page.
pub proof fn search_is_silent(a: WindowView, b: WindowView, name: Seq<char>)
    ensures
        a.issues == b.issues && a.next_page_token == b.next_page_token ==> search_result(a)
            == search_result(b),
        search_result(a).get(name) is Some ==> name == "issues"@ || name == "nextPageToken"@,
{
}

// --- history ----------------------------------------------------------------

/// Input `j` brought the changelog that was asked for.
pub open spec fn changelog_came(trace: Trace, n: int, j: int, changelog: JsonView) -> bool {
    &&& 0 <= j < n
    &&& trace.after(j).0.stage is Main
    &&& trace.document(j) == Some(changelog)
}

/// The result of a history: the changelog that came, in which the keys that may
/// not be disclosed are redacted, and the others were shown to be visible.
pub open spec fn history_done(trace: Trace, n: int, result: JsonView) -> bool {
    exists|j: int, changelog: JsonView, set: Set<Seq<char>>|
        {
            &&& #[trigger] changelog_came(trace, n, j, changelog)
            &&& result == #[trigger] redacted(changelog, set)
            &&& disclosed_from(
                trace,
                n,
                j + 1,
                changelog_keys(trace.call->IssueHistory_0.key@, changelog),
                set,
            )
            &&& forall|k: Seq<char>| #[trigger] admits(set, k) ==> shown_visible(trace, n, k)
        }
}

/// How far a history got.
spec fn history_so_far(trace: Trace, n: int) -> bool {
    let after = trace.after(n);
    &&& after.0.call == trace.call
    &&& after.0.creds == trace.creds
    &&& match after.0.stage {
        StageView::Identity => after.1 is Call,
        StageView::Gate { .. } => after.1 is Call,
        StageView::Main => after.1 is Call,
        StageView::Linked { named, replies, pending: PendingView::Changelog(v) } => {
            &&& named == changelog_keys(trace.call->IssueHistory_0.key@, v)
            &&& changelog_came(trace, n, n - replies.len() - 1, v)
            &&& fetching(trace, n, fetch_list(sorted(named)), replies)
        },
        StageView::Done => match after.1 {
            StepView::Finish(OutcomeView::Failure(_)) => true,
            StepView::Finish(OutcomeView::Success(result)) => history_done(trace, n, result),
            _ => false,
        },
        _ => false,
    }
}

proof fn lemma_history_linked(
    trace: Trace,
    n: int,
    run: RunView,
    named: Set<Seq<char>>,
    replies: Seq<Option<JsonView>>,
    changelog: JsonView,
)
    requires
        answered(trace, n, fetch_list(sorted(named)), replies),
        trace.after(n) == linked_fetched(
            trace.keep,
            run,
            named,
            replies,
            PendingView::Changelog(changelog),
            trace.time(n),
        ),
        run.call == trace.call,
        run.creds == trace.creds,
        named == changelog_keys(trace.call->IssueHistory_0.key@, changelog),
        changelog_came(trace, n, n - replies.len() - 1, changelog),
    ensures
        history_so_far(trace, n),
{
    if replies.len() >= fetch_list(sorted(named)).len() {
        let set = disclosed_keys(
            trace.keep.policy,
            named,
            replies,
            run.caller,
            trace.time(n),
        );
        assert forall|k: Seq<char>| #[trigger] admits(set, k) implies shown_visible(
            trace,
            n,
            k,
        ) by {
            lemma_disclosed(trace, n, named, replies, k);
        }
        let wanted = fetch_list(sorted(named));
        assert(wanted.take(wanted.len() as int) =~= wanted);
        assert(disclosed_from(trace, n, n - wanted.len(), named, set));
        assert(changelog_came(trace, n, n - replies.len() - 1, changelog));
        assert(history_done(trace, n, redacted(changelog, set)));
    }
}

proof fn lemma_history(trace: Trace, n: int)
    requires
        trace.call is IssueHistory,
        0 <= n,
    ensures
        history_so_far(trace, n),
    decreases n,
{
    let keep = trace.keep;
    if n == 0 {
        lemma_begun(keep, trace.call, trace.creds, trace.start);
    } else {
        lemma_history(trace, n - 1);
        let before = trace.after(n - 1).0;
        let idle = RunView { stage: StageView::Done, ..before };
        let (event, now) = trace.inputs[n - 1];
        match before.stage {
            StageView::Identity => {
                lemma_identity_then_gate(keep, before, event, now);
            },
            StageView::Gate { index } => {
                lemma_gate_then_next(keep, before, event, now, index);
            },
            StageView::Main => {
                if let Ok(v) = event.document() {
                    let named = changelog_keys(trace.call->IssueHistory_0.key@, v);
                    lemma_nothing_asked(trace, n, fetch_list(sorted(named)));
                    lemma_history_linked(trace, n, idle, named, Seq::empty(), v);
                }
            },
            StageView::Linked { named, replies, pending: PendingView::Changelog(v) } => {
                lemma_next_answer(trace, n - 1, fetch_list(sorted(named)), replies);
                lemma_history_linked(
                    trace,
                    n,
                    idle,
                    named,
                    replies.push(trace.document(n - 1)),
                    v,
                );
            },
            _ => {
                assert(before.stage is Done);
                lemma_nothing_after_the_end(keep, before, event, now);
            },
        }
    }
}

/// What a history shows is the changelog that came, with the keys redacted that
/// the answers do not show to be visible.
pub proof fn history_is_the_changelog_that_came(trace: Trace, n: int)
    requires
        0 <= n <= trace.inputs.len(),
        trace.call is IssueHistory,
        trace.after(n).1 matches StepView::Finish(OutcomeView::Success(_)),
    ensures
        history_done(trace, n, trace.after(n).1->Finish_0->Success_0),
{
    lemma_history(trace, n);
}

/// A history names only visible issues: whatever the site answers, a value of a
/// change that looks like an issue key is shown only where the answers show
/// that issue to be visible. What is shown is the changelog that came, with the
/// other keys redacted.
pub proof fn history_names_only_visible_issues(
    trace: Trace,
    n: int,
    list: Seq<char>,
    entry: int,
    change: int,
    name: Seq<char>,
)
    requires
        0 <= n <= trace.inputs.len(),
        trace.call is IssueHistory,
        trace.after(n).1 matches StepView::Finish(OutcomeView::Success(_)),
        list == "values"@ || list == "histories"@,
        change_value(name),
        change_at(trace.after(n).1->Finish_0->Success_0, list, entry, change) is Some,
    ensures
        history_done(trace, n, trace.after(n).1->Finish_0->Success_0),
        change_at(trace.after(n).1->Finish_0->Success_0, list, entry, change)->0.text_at(
            name,
        ) matches Some(s) ==> key_like(s) ==> shown_visible(trace, n, s),
{
    lemma_history(trace, n);
    let result = trace.after(n).1->Finish_0->Success_0;
    let (j, changelog, set) = choose|j: int, changelog: JsonView, set: Set<Seq<char>>|
        {
            &&& #[trigger] changelog_came(trace, n, j, changelog)
            &&& result == #[trigger] redacted(changelog, set)
            &&& disclosed_from(
                trace,
                n,
                j + 1,
                changelog_keys(trace.call->IssueHistory_0.key@, changelog),
                set,
            )
            &&& forall|k: Seq<char>| #[trigger] admits(set, k) ==> shown_visible(trace, n, k)
        };
    redacted_changelog_names_only_disclosable(changelog, set, list, entry, change, name);
}

} // verus!
