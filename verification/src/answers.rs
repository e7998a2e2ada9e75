//! What a call answers: histories, comments and the results of the other tools
//! hold what the site answered, whatever that is.

use vstd::prelude::*;
use vstd::string::*;

use crate::client::ApiVersion;
use crate::decisions::holds;
use crate::encoding::base64_text;
use crate::flow::{
    attachment_with, change_holds, changelog_entries, changelog_keys, changes_hold, changes_of,
    classify_request, comments_in, comments_served, concluded, entries_at, entries_hold, fails,
    filter_served, filters_served, fresh, gates, resumed, EventView, OutcomeView, RunView,
    StageView, StepView, Trace,
};
use crate::guard::fetch_list;
use crate::json::{json_pretty, written, JsonView};
use crate::keeping::{
    among_the_first, keeps_changelog, keeps_entries, keeps_values, lemma_first_are_fetched,
    may_be_hidden, redaction_hides_undisclosed_keys_alone,
};
use crate::keyset::{admits, sorted};
use crate::laws::{
    lemma_begun, lemma_gate_then_next, lemma_identity_then_gate, lemma_nothing_after_the_end,
};
use crate::outcomes::{
    asked_at, lemma_asked_at, lemma_filter_picks, lemma_picked_same, lemma_seen_is_disclosed,
    not_for_all, picked, picked_at, seen,
};
use crate::project::comment_shown;
use crate::reply::{attachments_of, filters_of, url_read, ErrorView};
use crate::requests::{
    a_run_keeps_its_call, is_attachment, lemma_attachment_with, lemma_located, lemma_stages,
    located, not_found, of_a_file, serves_the_call, the_request_carries_what_the_call_gives,
};
use crate::scrub::{hyphen_at, key_like, redacted};
use crate::server::KeepView;
use crate::text::{same_ignoring_case, trimmed};
use crate::tools::ToolCall;
use crate::visibility::{
    asked, changelog_came, disclosed_from, history_done, history_is_the_changelog_that_came,
};
use crate::wording::{left_of, trimming_takes_white_space_off_the_ends};

verus! {

// --- history ----------------------------------------------------------------

/// One of the four values of a change that can name an issue is this text.
pub open spec fn value_in(change: JsonView, value: Seq<char>) -> bool {
    ||| change.text_at("from"@) == Some(value)
    ||| change.text_at("to"@) == Some(value)
    ||| change.text_at("fromString"@) == Some(value)
    ||| change.text_at("toString"@) == Some(value)
}

/// A change in a list of a changelog has the value.
pub open spec fn told_at(
    changelog: JsonView,
    list: Seq<char>,
    entry: int,
    change: int,
    value: Seq<char>,
) -> bool {
    &&& list == "values"@ || list == "histories"@
    &&& changelog.items_at(list) matches Some(entries)
    &&& 0 <= entry < entries.len()
    &&& entries[entry].items_at("items"@) matches Some(changes)
    &&& 0 <= change < changes.len()
    &&& value_in(changes[change], value)
}

/// A changelog tells of the value.
pub open spec fn tells(changelog: JsonView, value: Seq<char>) -> bool {
    exists|list: Seq<char>, entry: int, change: int| #[trigger]
        told_at(changelog, list, entry, change, value)
}

/// A changelog has its entries in lists: what stands under `values`, if
/// anything does, is one.
pub open spec fn in_lists(changelog: JsonView) -> bool {
    changelog.get("values"@) is Some ==> changelog.items_at("values"@) is Some
}

/// The keys that a history of the issue `key` may tell of: its own, and every
/// value with a hyphen.
pub open spec fn told_keys(key: Seq<char>, changelog: JsonView) -> Set<Seq<char>> {
    Set::new(|k: Seq<char>| k == key || (k.contains('-') && tells(changelog, k)))
}

proof fn lemma_entries_hold(entries: Seq<JsonView>, entry: int, change: int, value: Seq<char>)
    requires
        0 <= entry < entries.len(),
        entries[entry].items_at("items"@) is Some,
        0 <= change < entries[entry].items_at("items"@)->0.len(),
        value_in(entries[entry].items_at("items"@)->0[change], value),
    ensures
        entries_hold(entries, value),
{
    let changes = changes_of(entries[entry]);
    assert(change_holds(changes[change], value));
    assert(changes_hold(changes_of(entries[entry]), value));
}

proof fn lemma_tells(changelog: JsonView, value: Seq<char>)
    requires
        in_lists(changelog),
    ensures
        tells(changelog, value) == entries_hold(changelog_entries(changelog), value),
{
    let all = changelog_entries(changelog);
    let values = entries_at(changelog, "values"@);
    let histories = entries_at(changelog, "histories"@);
    assert(all =~= values + histories);
    if tells(changelog, value) {
        let (list, entry, change) = choose|list: Seq<char>, entry: int, change: int| #[trigger]
            told_at(changelog, list, entry, change, value);
        if list == "values"@ {
            assert(all[entry] == values[entry]);
            lemma_entries_hold(all, entry, change, value);
        } else {
            assert(all[values.len() + entry] == histories[entry]);
            lemma_entries_hold(all, values.len() + entry, change, value);
        }
    }
    if entries_hold(all, value) {
        let i = choose|i: int|
            0 <= i < all.len() && changes_hold(changes_of(#[trigger] all[i]), value);
        let changes = changes_of(all[i]);
        let c = choose|c: int|
            0 <= c < changes.len() && change_holds(#[trigger] changes[c], value);
        assert(value_in(changes[c], value));
        if i < values.len() {
            assert(all[i] == values[i]);
            assert(told_at(changelog, "values"@, i, c, value));
        } else {
            assert(all[i] == histories[i - values.len()]);
            assert(told_at(changelog, "histories"@, i - values.len(), c, value));
        }
    }
}

proof fn lemma_changes_finite(changes: Seq<JsonView>)
    ensures
        Set::new(|k: Seq<char>| changes_hold(changes, k)).finite(),
    decreases changes.len(),
{
    let set = Set::new(|k: Seq<char>| changes_hold(changes, k));
    if changes.len() == 0 {
        assert(set =~= Set::empty());
    } else {
        let rest = changes.drop_last();
        lemma_changes_finite(rest);
        let earlier = Set::new(|k: Seq<char>| changes_hold(rest, k));
        let last = changes.last();
        let most = earlier.insert(last.text_at("from"@)->0).insert(last.text_at("to"@)->0).insert(
            last.text_at("fromString"@)->0,
        ).insert(last.text_at("toString"@)->0);
        assert forall|k: Seq<char>| #[trigger] set.contains(k) implies most.contains(k) by {
            let c = choose|c: int| 0 <= c < changes.len() && change_holds(#[trigger] changes[c], k);
            if c < rest.len() {
                assert(change_holds(rest[c], k));
                assert(earlier.contains(k));
            }
        }
        vstd::set_lib::lemma_set_subset_finite(most, set);
    }
}

proof fn lemma_entries_finite(entries: Seq<JsonView>)
    ensures
        Set::new(|k: Seq<char>| entries_hold(entries, k)).finite(),
    decreases entries.len(),
{
    let set = Set::new(|k: Seq<char>| entries_hold(entries, k));
    if entries.len() == 0 {
        assert(set =~= Set::empty());
    } else {
        let rest = entries.drop_last();
        lemma_entries_finite(rest);
        lemma_changes_finite(changes_of(entries.last()));
        let earlier = Set::new(|k: Seq<char>| entries_hold(rest, k));
        let last = Set::new(|k: Seq<char>| changes_hold(changes_of(entries.last()), k));
        let most = earlier.union(last);
        assert forall|k: Seq<char>| #[trigger] set.contains(k) implies most.contains(k) by {
            let i = choose|i: int|
                0 <= i < entries.len() && changes_hold(changes_of(#[trigger] entries[i]), k);
            if i < rest.len() {
                assert(changes_hold(changes_of(rest[i]), k));
                assert(earlier.contains(k));
            } else {
                assert(last.contains(k));
            }
        }
        vstd::set_lib::lemma_set_subset_finite(most, set);
    }
}

proof fn lemma_changelog_keys(key: Seq<char>, changelog: JsonView)
    ensures
        changelog_keys(key, changelog).finite(),
        in_lists(changelog) ==> changelog_keys(key, changelog) == told_keys(key, changelog),
{
    let named = changelog_keys(key, changelog);
    let all = Set::new(|k: Seq<char>| entries_hold(changelog_entries(changelog), k));
    lemma_entries_finite(changelog_entries(changelog));
    vstd::set_lib::lemma_set_subset_finite(all.insert(key), named);
    if in_lists(changelog) {
        assert forall|k: Seq<char>| #[trigger] named.contains(k) == told_keys(
            key,
            changelog,
        ).contains(k) by {
            lemma_tells(changelog, k);
        }
        assert(named =~= told_keys(key, changelog));
    }
}

/// What looks like an issue key has a hyphen.
proof fn lemma_key_has_hyphen(s: Seq<char>)
    requires
        key_like(s),
    ensures
        s.contains('-'),
{
    let t = trimmed(s);
    let k = choose|k: int| hyphen_at(t, k);
    trimming_takes_white_space_off_the_ends(s);
    let (a, b) = choose|a: Seq<char>, b: Seq<char>| #[trigger] left_of(s, a, t, b);
    assert(s[a.len() + k] == t[k]);
}

/// The changelog of the issue came with input `j`. Until step `to` the site was
/// asked for the issues that it may name, up to the bound; what is served is the
/// changelog, in which a value is hidden only where it looks like the key of an
/// issue that the answers do not show to be visible.
#[verifier::opaque]
pub open spec fn history_kept(
    trace: Trace,
    n: int,
    j: int,
    to: int,
    changelog: JsonView,
    shown: JsonView,
) -> bool {
    let key = trace.call->IssueHistory_0.key@;
    &&& 0 <= j < to <= n
    &&& trace.after(j).1 is Call && serves_the_call(
        trace.keep,
        trace.creds,
        trace.call,
        trace.after(j).1->Call_0,
    )
    &&& trace.document(j) == Some(changelog)
    &&& in_lists(changelog) ==> {
        &&& forall|k: Seq<char>|
            told_keys(key, changelog).contains(k) && trimmed(k).len() > 0 && among_the_first(
                told_keys(key, changelog),
                k,
            ) ==> exists|m: int| j < m < to && asked_at(trace, m, #[trigger] trimmed(k))
        &&& keeps_changelog(changelog, shown, seen(trace, j + 1, to))
    }
}

/// Whether a changelog keeps its values hangs on the values that it tells of
/// alone.
proof fn lemma_relevant_values(
    changelog: JsonView,
    kept: JsonView,
    all: spec_fn(Seq<char>) -> bool,
    relevant: spec_fn(Seq<char>) -> bool,
    named: Set<Seq<char>>,
)
    requires
        keeps_changelog(changelog, kept, relevant),
        forall|k: Seq<char>| #[trigger] relevant(k) == (all(k) && named.contains(k)),
        forall|k: Seq<char>|
            k.contains('-') && tells(changelog, k) ==> #[trigger] named.contains(k),
    ensures
        keeps_changelog(changelog, kept, all),
{
    assert forall|list: Seq<char>| #[trigger]
        changelog.items_at(list) is Some && (list == "values"@ || list == "histories"@) implies {
        &&& kept.items_at(list) is Some
        &&& keeps_entries(changelog.items_at(list)->0, kept.items_at(list)->0, all)
    } by {
        let entries = changelog.items_at(list)->0;
        let left = kept.items_at(list)->0;
        assert(keeps_entries(entries, left, relevant));
        assert forall|i: int| 0 <= i < entries.len() implies {
            &&& forall|name: Seq<char>|
                name != "items"@ ==> #[trigger] left[i].get(name) == entries[i].get(name)
            &&& (#[trigger] entries[i]).items_at("items"@) matches Some(changes) ==> {
                &&& left[i].items_at("items"@) is Some
                &&& left[i].items_at("items"@)->0.len() == changes.len()
                &&& forall|m: int|
                    0 <= m < changes.len() ==> keeps_values(
                        #[trigger] changes[m],
                        left[i].items_at("items"@)->0[m],
                        all,
                    )
            }
        } by {
            if let Some(changes) = entries[i].items_at("items"@) {
                assert forall|m: int| 0 <= m < changes.len() implies keeps_values(
                    #[trigger] changes[m],
                    left[i].items_at("items"@)->0[m],
                    all,
                ) by {
                    let change = changes[m];
                    let shown = left[i].items_at("items"@)->0[m];
                    assert(keeps_values(change, shown, relevant));
                    assert forall|name: Seq<char>| #[trigger] change.get(name) is Some implies {
                        let value = change.get(name)->0;
                        !may_be_hidden(name, value, all) ==> shown.get(name) == Some(value)
                    } by {
                        let value = change.get(name)->0;
                        if may_be_hidden(name, value, relevant) && !may_be_hidden(
                            name,
                            value,
                            all,
                        ) {
                            let s = value->Text_0;
                            lemma_key_has_hyphen(s);
                            assert(change.text_at(name) == Some(s));
                            assert(told_at(changelog, list, i, m, s));
                            assert(named.contains(s));
                            assert(relevant(s));
                        }
                    }
                }
            }
        }
    }
}

proof fn lemma_history_kept(
    trace: Trace,
    n: int,
    j: int,
    changelog: JsonView,
    set: Set<Seq<char>>,
)
    requires
        0 <= n <= trace.inputs.len(),
        trace.call is IssueHistory,
        of_a_file(trace.keep),
        changelog_came(trace, n, j, changelog),
        disclosed_from(
            trace,
            n,
            j + 1,
            changelog_keys(trace.call->IssueHistory_0.key@, changelog),
            set,
        ),
    ensures
        exists|to: int| #[trigger]
            history_kept(trace, n, j, to, changelog, redacted(changelog, set)),
{
    reveal(history_kept);
    let key = trace.call->IssueHistory_0.key@;
    let named = changelog_keys(key, changelog);
    let wanted = fetch_list(sorted(named));
    let to = j + 1 + wanted.len();
    let shown = redacted(changelog, set);
    the_request_carries_what_the_call_gives(trace, j);
    lemma_changelog_keys(key, changelog);
    if in_lists(changelog) {
        assert forall|k: Seq<char>|
            told_keys(key, changelog).contains(k) && trimmed(k).len() > 0 && among_the_first(
                told_keys(key, changelog),
                k,
            ) implies exists|m: int| j < m < to && asked_at(trace, m, #[trigger] trimmed(k)) by {
            lemma_first_are_fetched(named, k);
            let x = choose|x: int| 0 <= x < wanted.len() && wanted[x] == trimmed(k);
            assert(trace.after(j + 1 + x).1 == StepView::Call(
                classify_request(trace.keep, fresh(trace.call, trace.creds), wanted[x]),
            ));
            lemma_asked_at(trace, j + 1 + x, trimmed(k));
        }
        let view = seen(trace, j + 1, to);
        let relevant = |k: Seq<char>| view(k) && named.contains(k);
        assert forall|k: Seq<char>| #[trigger] relevant(k) implies admits(set, k) by {
            assert(asked(trace, to, j + 1, wanted));
            lemma_seen_is_disclosed(trace, j + 1, named, k);
            assert(set.contains(k) && same_ignoring_case(k, k));
        }
        redaction_hides_undisclosed_keys_alone(changelog, set, relevant);
        assert forall|k: Seq<char>|
            k.contains('-') && tells(changelog, k) implies #[trigger] named.contains(k) by {
            assert(told_keys(key, changelog).contains(k));
        }
        lemma_relevant_values(changelog, shown, view, relevant, named);
    }
    assert(history_kept(trace, n, j, to, changelog, shown));
}

/// Whatever the site answers, a history is the changelog of the issue as it
/// came, but for values that look like the key of an issue that may not be seen:
/// each value that looks like a key has been asked about, up to the bound on such
/// requests, and where the issue with that key may be seen, it is left as it is.
pub proof fn history_keeps_what_may_be_seen(trace: Trace, n: int)
    requires
        0 <= n <= trace.inputs.len(),
        trace.call is IssueHistory,
        of_a_file(trace.keep),
        trace.after(n).1 matches StepView::Finish(OutcomeView::Success(_)),
    ensures
        exists|j: int, to: int, changelog: JsonView| #[trigger]
            history_kept(
                trace,
                n,
                j,
                to,
                changelog,
                trace.after(n).1->Finish_0->Success_0,
            ),
{
    history_is_the_changelog_that_came(trace, n);
    let result = trace.after(n).1->Finish_0->Success_0;
    assert(history_done(trace, n, result));
    let (j, changelog, set) = choose|j: int, changelog: JsonView, set: Set<Seq<char>>|
        {
            &&& #[trigger] changelog_came(trace, n, j, changelog)
            &&& result == #[trigger] redacted(changelog, set)
            &&& disclosed_from(
                trace,
                n,
                j + 1,
                changelog_keys(trace.call->IssueHistory_0.key@, changelog),
                set,
            )
            &&& forall|k: Seq<char>| #[trigger]
                admits(set, k) ==> crate::visibility::shown_visible(trace, n, k)
        };
    lemma_history_kept(trace, n, j, changelog, set);
    let to = choose|to: int| #[trigger]
        history_kept(trace, n, j, to, changelog, redacted(changelog, set));
    assert(history_kept(trace, n, j, to, changelog, result));
}

// --- the answer to the request of a tool ------------------------------------

/// The call is over with a result.
pub open spec fn answers(step: StepView) -> bool {
    step matches StepView::Finish(OutcomeView::Success(_))
}

/// The result of a call.
pub open spec fn answer(step: StepView) -> JsonView {
    step->Finish_0->Success_0
}

/// The call is over with the one text that tells nothing of the issue.
pub open spec fn denied(step: StepView, key: Seq<char>) -> bool {
    step == StepView::Finish(
        OutcomeView::Failure("Issue "@ + key + " is not accessible through this server"@),
    )
}

/// The call is over with an error text that begins with `what`.
pub open spec fn failed(step: StepView, what: Seq<char>) -> bool {
    step matches StepView::Finish(OutcomeView::Failure(text)) && what.len() <= text.len()
        && text.take(what.len() as int) == what
}

/// A document has just these members.
pub open spec fn only_members(document: JsonView, names: Set<Seq<char>>) -> bool {
    forall|name: Seq<char>| #[trigger] document.get(name) is Some ==> names.contains(name)
}

/// The document that came, if one did.
pub open spec fn told(event: EventView) -> Option<JsonView> {
    match event {
        EventView::Document(Ok(v)) => Some(v),
        _ => None,
    }
}

/// The comments of a reply that a call is answered with: those for all, and the
/// others where the policy allows it and the call asks for it; each of them, as
/// it came and in the same order.
pub open spec fn comments_answered(
    came: JsonView,
    shown: JsonView,
    allowed: bool,
    asked_for: bool,
) -> bool {
    let comments = match came.items_at("comments"@) {
        Some(items) => items,
        None => Seq::empty(),
    };
    shown matches JsonView::Array(few) && picked(
        comments,
        few,
        |c: JsonView| !not_for_all(c) || (allowed && asked_for),
    )
}

/// What is shown of a saved filter.
pub open spec fn filter_answered(filter: JsonView, shown: JsonView) -> bool {
    &&& only_members(shown, set!["id"@, "name"@, "description"@, "jql"@, "owner"@])
    &&& shown.get("id"@) == Some(or_else_null(filter.get("id"@)))
    &&& shown.get("name"@) == Some(or_else_null(filter.get("name"@)))
    &&& shown.get("description"@) == Some(or_else_null(filter.get("description"@)))
    &&& shown.get("jql"@) == Some(or_else_null(filter.get("jql"@)))
    &&& shown.get("owner"@) == Some(
        match filter.get("owner"@) {
            Some(owner) => or_else_null(owner.get("displayName"@)),
            None => JsonView::Null,
        },
    )
}

/// The value, or `null` where there is none.
pub open spec fn or_else_null(value: Option<JsonView>) -> JsonView {
    match value {
        Some(v) => v,
        None => JsonView::Null,
    }
}

/// The favourite filters that came: a list, or a list under `values`.
pub open spec fn filters_told(came: JsonView) -> Option<Seq<JsonView>> {
    match came {
        JsonView::Array(items) => Some(items),
        _ => came.items_at("values"@),
    }
}

/// `{"ok": true}`, and the key where there is one.
pub open spec fn is_ok(document: JsonView, key: Option<Seq<char>>) -> bool {
    &&& document.get("ok"@) == Some(JsonView::Bool(true))
    &&& document.get("key"@) == match key {
        Some(k) => Some(JsonView::Text(k)),
        None => None,
    }
    &&& only_members(document, set!["ok"@, "key"@])
}

/// The answer to a change: that it went through, or an error text.
pub open spec fn change_answered(
    event: EventView,
    step: StepView,
    key: Option<Seq<char>>,
    what: Seq<char>,
) -> bool {
    if event matches EventView::Change(Ok(_)) {
        answers(step) && is_ok(answer(step), key)
    } else {
        failed(step, what)
    }
}

/// The answer that hands on what the site answered, or an error text.
pub open spec fn handed_on(event: EventView, step: StepView, what: Seq<char>) -> bool {
    match told(event) {
        Some(v) => answers(step) && answer(step) == v,
        None => failed(step, what),
    }
}

/// The step that follows the reply to the request of a tool.
pub open spec fn fitting(keep: KeepView, call: ToolCall, event: EventView, step: StepView) -> bool {
    match call {
        ToolCall::IssueComments(p) => match told(event) {
            Some(v) => {
                &&& answers(step)
                &&& answer(step).get("key"@) == Some(JsonView::Text(p.key@))
                &&& answer(step).get("comments"@) is Some && comments_answered(
                    v,
                    answer(step).get("comments"@)->0,
                    keep.policy.global.allow_restricted_comments,
                    p.include_restricted,
                )
                &&& only_members(answer(step), set!["key"@, "comments"@])
            },
            None => denied(step, p.key@),
        },
        ToolCall::SummarizeIssue(p) => match told(event) {
            Some(v) => step matches StepView::Finish(OutcomeView::Prompt { text, comments })
                && comments_answered(v, comments, false, false) && text
                == "You are an expert at summarizing Jira issue comments.\nRules:\n- Structure the summary clearly\n- Mention authors and dates where relevant\n- Do not invent facts not present in the data\n\nIssue: "@
                + p.key@ + "\nComments:\n"@ + json_pretty(written(comments)),
            None => denied(step, p.key@),
        },
        ToolCall::IssueHistory(p) => match told(event) {
            Some(_) => step is Call || answers(step),
            None => denied(step, p.key@),
        },
        ToolCall::ListAttachments(p) => match told(event) {
            Some(v) => {
                &&& answers(step)
                &&& answer(step).get("key"@) == Some(JsonView::Text(p.key@))
                &&& answer(step).items_at("attachments"@) == Some(attachments_told(v))
                &&& only_members(answer(step), set!["key"@, "attachments"@])
            },
            None => denied(step, p.key@),
        },
        ToolCall::ListTransitions(p) => match told(event) {
            Some(v) => answers(step) && answer(step) == v,
            None => denied(step, p.key@),
        },
        ToolCall::DownloadAttachment(p) => match told(event) {
            Some(v) => (forall|i: int|
                0 <= i < attachments_told(v).len() ==> !is_attachment(
                    #[trigger] attachments_told(v)[i],
                    p.attachment_id@,
                )) ==> denied(step, p.key@),
            None => denied(step, p.key@),
        },
        ToolCall::JiraServerInfo => match told(event) {
            Some(JsonView::Object(m)) => answers(step) && answer(step) == JsonView::Object(
                m.insert("url"@, JsonView::Text(keep.client.base_url)),
            ),
            Some(v) => answers(step) && answer(step) == v,
            None => failed(step, "failed to fetch server info: "@),
        },
        ToolCall::ListFilters => match told(event) {
            Some(v) => match filters_told(v) {
                Some(filters) => {
                    &&& answers(step)
                    &&& only_members(answer(step), set!["filters"@])
                    &&& answer(step).items_at("filters"@) matches Some(few)
                    &&& few.len() == filters.len()
                    &&& forall|i: int|
                        0 <= i < few.len() ==> filter_answered(#[trigger] filters[i], few[i])
                },
                None => failed(step, "failed to list filters: "@),
            },
            None => failed(step, "failed to list filters: "@),
        },
        ToolCall::CreateIssue(_) => handed_on(event, step, "create_issue failed: "@),
        ToolCall::AddComment(_) => handed_on(event, step, "add_comment failed: "@),
        ToolCall::AddAttachment(_) => handed_on(event, step, "add_attachment failed: "@),
        ToolCall::TransitionIssue(p) => change_answered(
            event,
            step,
            Some(p.key@),
            "transition failed: "@,
        ),
        ToolCall::AssignIssue(p) => change_answered(
            event,
            step,
            Some(p.key@),
            "assign failed: "@,
        ),
        ToolCall::UpdateIssueFields(p) => change_answered(
            event,
            step,
            Some(p.key@),
            "update failed: "@,
        ),
        ToolCall::AddWatcher(_) => change_answered(event, step, None, "add_watcher failed: "@),
        ToolCall::LinkIssues(_) => change_answered(event, step, None, "link failed: "@),
        _ => step matches StepView::Finish(OutcomeView::Failure(_)),
    }
}

/// The attachments that an issue tells of.
pub open spec fn attachments_told(issue: JsonView) -> Seq<JsonView> {
    match issue.get("fields"@) {
        Some(fields) => match fields.items_at("attachment"@) {
            Some(items) => items,
            None => Seq::empty(),
        },
        None => Seq::empty(),
    }
}

proof fn lemma_failed(run: RunView, what: Seq<char>, rest: Seq<char>)
    ensures
        failed(fails(run, what + rest).1, what),
{
    assert((what + rest).take(what.len() as int) =~= what);
}

proof fn lemma_comments_answered(keep: KeepView, came: JsonView, asked_for: bool)
    ensures
        comments_answered(
            came,
            comments_served(keep, came, asked_for),
            keep.policy.global.allow_restricted_comments,
            asked_for,
        ),
{
    let allowed = keep.policy.global.allow_restricted_comments;
    let comments = comments_in(came);
    let mine = |c: JsonView| !not_for_all(c) || (allowed && asked_for);
    lemma_filter_picks(comments, comment_shown(allowed && asked_for));
    lemma_picked_same(
        comments,
        comments.filter(comment_shown(allowed && asked_for)),
        comment_shown(allowed && asked_for),
        mine,
    );
}

proof fn lemma_answer_names()
    ensures
        "key"@.len() == 3,
        "comments"@.len() == 8,
        "attachments"@.len() == 11,
        "ok"@.len() == 2,
        "id"@.len() == 2,
        "name"@.len() == 4,
        "description"@.len() == 11,
        "jql"@.len() == 3,
        "owner"@.len() == 5,
        "id"@[0] == 'i',
        "ok"@[0] == 'o',
{
    reveal_strlit("key");
    reveal_strlit("comments");
    reveal_strlit("attachments");
    reveal_strlit("ok");
    reveal_strlit("id");
    reveal_strlit("name");
    reveal_strlit("description");
    reveal_strlit("jql");
    reveal_strlit("owner");
}

proof fn lemma_filters_answered(filters: Seq<JsonView>)
    ensures
        ({
            let shown = filters_served(filters);
            &&& only_members(shown, set!["filters"@])
            &&& shown.items_at("filters"@) matches Some(few)
            &&& few.len() == filters.len()
            &&& forall|i: int|
                0 <= i < few.len() ==> filter_answered(#[trigger] filters[i], few[i])
        }),
{
    lemma_answer_names();
    let few = filters_served(filters).items_at("filters"@)->0;
    assert forall|i: int| 0 <= i < few.len() implies filter_answered(
        #[trigger] filters[i],
        few[i],
    ) by {
        assert(few[i] == filter_served(filters[i]));
    }
}

/// Every tool is answered with what the site said: with the documents that came,
/// as they came and no more of them than the tool shows; with a word that a
/// change went through exactly where it did; and with an error text otherwise,
/// which tells nothing of the issue where the tool only reads.
pub proof fn the_answer_is_what_the_site_said(trace: Trace, n: int)
    requires
        0 <= n < trace.inputs.len(),
        of_a_file(trace.keep),
        trace.after(n).0.stage is Main,
    ensures
        fitting(trace.keep, trace.call, trace.inputs[n].0, trace.after(n + 1).1),
{
    a_run_keeps_its_call(trace, n);
    lemma_fitting(trace.keep, trace.after(n).0, trace.inputs[n].0, trace.inputs[n].1);
}

proof fn lemma_fitting(keep: KeepView, run: RunView, event: EventView, now: int)
    requires
        run.stage is Main,
    ensures
        fitting(keep, run.call, event, resumed(keep, run, event, now).1),
{
    lemma_answer_names();
    let idle = RunView { stage: StageView::Done, ..run };
    let outcome = event.document();
    assert(told(event) == match outcome {
        Ok(v) => Some(v),
        Err(_) => None,
    });
    match run.call {
        ToolCall::IssueComments(p) => {
            if let Ok(v) = outcome {
                lemma_comments_answered(keep, v, p.include_restricted);
            }
        },
        ToolCall::SummarizeIssue(p) => {
            if let Ok(v) = outcome {
                lemma_comments_answered(keep, v, false);
                let text = concluded(keep, idle, event, now).1->Finish_0->Prompt_text;
            }
        },
        ToolCall::ListFilters => {
            if let Ok(filters) = filters_of(outcome) {
                lemma_filters_answered(filters);
            }
        },
        ToolCall::DownloadAttachment(p) => {
            if let Ok(items) = attachments_of(outcome) {
                crate::requests::lemma_attachment_with(items, p.attachment_id@);
                if let Some(meta) = attachment_with(items, p.attachment_id@) {
                    let all = attachments_told(outcome->Ok_0);
                    assert(items =~= all);
                    let i = choose|i: int| 0 <= i < all.len() && all[i] == meta;
                    assert(is_attachment(all[i], p.attachment_id@));
                }
            }
        },
        _ => {},
    }
    if let StepView::Finish(OutcomeView::Failure(text)) = resumed(keep, run, event, now).1 {
        lemma_error_texts(text);
    }
}

/// An error text begins with what failed.
proof fn lemma_error_texts(text: Seq<char>)
    ensures
        forall|what: Seq<char>, rest: Seq<char>|
            text == #[trigger] (what + rest) ==> what.len() <= text.len() && text.take(
                what.len() as int,
            ) == what,
{
    assert forall|what: Seq<char>, rest: Seq<char>|
        text == #[trigger] (what + rest) implies what.len() <= text.len() && text.take(
        what.len() as int,
    ) == what by {
        assert(text.take(what.len() as int) =~= what);
    }
}

/// A tool that is assessed on issues shows nothing before the reply to its
/// request has come.
pub proof fn a_result_follows_the_reply(trace: Trace, n: int)
    requires
        0 <= n <= trace.inputs.len(),
        of_a_file(trace.keep),
        gates(trace.call).len() > 0,
        trace.after(n).1 is Finish,
        !(trace.after(n).1->Finish_0 is Failure),
    ensures
        0 < n,
        match trace.after(n - 1).0.stage {
            StageView::Main => true,
            StageView::Linked { .. } => trace.call is IssueHistory,
            StageView::Download { .. } => trace.call is DownloadAttachment,
            _ => false,
        },
{
    let keep = trace.keep;
    if n == 0 {
        lemma_begun(keep, trace.call, trace.creds, trace.start);
    } else {
        lemma_stages(trace, n - 1);
        a_run_keeps_its_call(trace, n - 1);
        let before = trace.after(n - 1).0;
        let (event, now) = trace.inputs[n - 1];
        match before.stage {
            StageView::Identity => {
                lemma_identity_then_gate(keep, before, event, now);
            },
            StageView::Gate { index } => {
                lemma_gate_then_next(keep, before, event, now, index);
            },
            StageView::Done => {
                lemma_nothing_after_the_end(keep, before, event, now);
            },
            _ => {},
        }
    }
}

/// Whatever the site answers, a call for comments shows one of restricted
/// visibility only where the policy allows that and the call asks for it.
pub proof fn restricted_comments_need_both_consents(trace: Trace, n: int, i: int)
    requires
        0 <= n <= trace.inputs.len(),
        of_a_file(trace.keep),
        trace.call is IssueComments,
        answers(trace.after(n).1),
        answer(trace.after(n).1).items_at("comments"@) is Some,
        0 <= i < answer(trace.after(n).1).items_at("comments"@)->0.len(),
        not_for_all(answer(trace.after(n).1).items_at("comments"@)->0[i]),
    ensures
        trace.keep.policy.global.allow_restricted_comments,
        trace.call->IssueComments_0.include_restricted,
{
    a_result_follows_the_reply(trace, n);
    the_answer_is_what_the_site_said(trace, n - 1);
    let came = told(trace.inputs[n - 1].0)->0;
    let few = answer(trace.after(n).1).items_at("comments"@)->0;
    let comments = match came.items_at("comments"@) {
        Some(items) => items,
        None => Seq::empty(),
    };
    let wanted = |c: JsonView|
        !not_for_all(c) || (trace.keep.policy.global.allow_restricted_comments
            && trace.call->IssueComments_0.include_restricted);
    assert(picked(comments, few, wanted));
    let at = choose|at: Seq<int>| #[trigger] picked_at(comments, few, wanted, at);
    assert(at.contains(at[i]));
    assert(wanted(comments[at[i]]));
}

/// The content of an attachment is answered as it came, with its size and the
/// name of the file; where it did not come, with an error text.
pub proof fn a_download_is_answered_as_it_came(trace: Trace, n: int)
    requires
        0 <= n < trace.inputs.len(),
        of_a_file(trace.keep),
        trace.after(n).0.stage is Download,
    ensures
        ({
            let p = trace.call->DownloadAttachment_0;
            let meta = trace.after(n).0.stage->Download_meta;
            let step = trace.after(n + 1).1;
            match trace.inputs[n].0 {
                EventView::Data(Ok(bytes)) => {
                    &&& answers(step)
                    &&& answer(step).get("key"@) == Some(JsonView::Text(p.key@))
                    &&& answer(step).get("attachment_id"@) == Some(
                        JsonView::Text(p.attachment_id@),
                    )
                    &&& answer(step).get("filename"@) == Some(or_else_null(meta.get("filename"@)))
                    &&& answer(step).get("size"@) == Some(JsonView::Unsigned(bytes.len()))
                    &&& answer(step).get("content_base64"@) == Some(
                        JsonView::Text(base64_text(bytes)),
                    )
                },
                _ => failed(step, "download failed: "@),
            }
        }),
{
    a_run_keeps_its_call(trace, n);
    crate::requests::lemma_download_call(trace, n);
    reveal_strlit("key");
    reveal_strlit("attachment_id");
    reveal_strlit("filename");
    reveal_strlit("size");
    reveal_strlit("content_base64");
    assert("key"@.len() == 3);
    assert("attachment_id"@.len() == 13);
    assert("filename"@.len() == 8);
    assert("size"@.len() == 4);
    assert("content_base64"@.len() == 14);
    let run = trace.after(n).0;
    let (event, now) = trace.inputs[n];
    assert(trace.after(n + 1) == resumed(trace.keep, run, event, now));
    if let StepView::Finish(OutcomeView::Failure(text)) = trace.after(n + 1).1 {
        lemma_error_texts(text);
    }
}

proof fn lemma_first_attachment(items: Seq<JsonView>, id: Seq<char>, i: int)
    requires
        0 <= i < items.len(),
        is_attachment(items[i], id),
        forall|j: int| 0 <= j < i ==> !is_attachment(#[trigger] items[j], id),
    ensures
        attachment_with(items, id) == Some(items[i]),
    decreases i,
{
    lemma_attachment_with(seq![items[0]], id);
    assert(seq![items[0]].drop_first() =~= Seq::<JsonView>::empty());
    if attachment_with(seq![items[0]], id) is None {
        assert(!is_attachment(seq![items[0]][0], id));
    } else {
        assert(seq![items[0]].contains(attachment_with(seq![items[0]], id)->0));
        assert(attachment_with(seq![items[0]], id) == Some(items[0]));
    }
    assert(attachment_with(seq![items[0]], id) is Some <==> is_attachment(items[0], id));
    if i > 0 {
        let rest = items.drop_first();
        assert forall|j: int| 0 <= j < i - 1 implies !is_attachment(#[trigger] rest[j], id) by {
            assert(rest[j] == items[j + 1]);
        }
        lemma_first_attachment(rest, id, i - 1);
    }
}

/// The content of the first attachment with the id that the call names is asked
/// for, where its size is known not to pass the limit, if there is one, and it is
/// on the site.
pub proof fn a_download_that_may_be_is_made(
    trace: Trace,
    n: int,
    issue: JsonView,
    i: int,
    content: Seq<char>,
)
    requires
        0 <= n < trace.inputs.len(),
        of_a_file(trace.keep),
        trace.call is DownloadAttachment,
        trace.after(n).0.stage is Main,
        trace.inputs[n].0 == EventView::Document(Ok(issue)),
        0 <= i < attachments_told(issue).len(),
        is_attachment(
            attachments_told(issue)[i],
            trace.call->DownloadAttachment_0.attachment_id@,
        ),
        forall|j: int|
            0 <= j < i ==> !is_attachment(
                #[trigger] attachments_told(issue)[j],
                trace.call->DownloadAttachment_0.attachment_id@,
            ),
        trace.keep.policy.global.max_attachment_bytes == 0 || exists|size: nat| #[trigger]
            holds(attachments_told(issue)[i], "size"@, JsonView::Unsigned(size)) && size
                <= trace.keep.policy.global.max_attachment_bytes,
        holds(attachments_told(issue)[i], "content"@, JsonView::Text(content)),
        url_read(trace.keep.client.base_url) is Some,
        url_read(trace.keep.client.base_url)->0.origin is Some,
        url_read(located(trace.keep, content)) is Some,
        url_read(located(trace.keep, content))->0.origin == url_read(
            trace.keep.client.base_url,
        )->0.origin,
    ensures
        trace.after(n + 1).0.stage == (StageView::Download { meta: attachments_told(issue)[i] }),
        trace.after(n + 1).1 is Call,
        trace.after(n + 1).1->Call_0.url == url_read(located(trace.keep, content))->0.text,
{
    a_run_keeps_its_call(trace, n);
    let items = attachments_told(issue);
    lemma_first_attachment(items, trace.call->DownloadAttachment_0.attachment_id@, i);
    lemma_located(trace.keep, content);
    let run = trace.after(n).0;
    let (event, now) = trace.inputs[n];
    assert(trace.after(n + 1) == resumed(trace.keep, run, event, now));
    assert(attachments_of(event.document()) == Ok::<Seq<JsonView>, ErrorView>(items));
}

/// A search that the site does not answer ends with an error text, unless it is
/// made once more in the other way; so does one whose saved filter does not come
/// or holds no query.
pub proof fn a_failed_search_is_told(trace: Trace, n: int)
    requires
        0 <= n < trace.inputs.len(),
        of_a_file(trace.keep),
        trace.inputs[n].0 matches EventView::Document(Err(_)),
    ensures
        trace.after(n).0.stage is Search ==> failed(trace.after(n + 1).1, "search failed: "@) || (
        trace.keep.client.api_version == ApiVersion::V3
            && !trace.after(n).0.stage->Search_retried && not_found(trace.inputs[n].0)),
        trace.after(n).0.stage is Filter && trace.call is SearchFilter ==> failed(
            trace.after(n + 1).1,
            "filter lookup failed: "@,
        ),
{
    a_run_keeps_its_call(trace, n);
    let run = trace.after(n).0;
    let (event, now) = trace.inputs[n];
    assert(trace.after(n + 1) == resumed(trace.keep, run, event, now));
    if let Err(e) = event.document() {
        lemma_failed(run, "search failed: "@, e.text());
        lemma_failed(run, "filter lookup failed: "@, e.text());
    }
}

/// A saved filter that holds no query ends the search with the text for that.
pub proof fn a_filter_without_a_query_is_told(trace: Trace, n: int, filter: JsonView)
    requires
        0 <= n < trace.inputs.len(),
        of_a_file(trace.keep),
        trace.call is SearchFilter,
        trace.after(n).0.stage is Filter,
        trace.inputs[n].0 == EventView::Document(Ok(filter)),
        filter.text_at("jql"@) is None,
    ensures
        trace.after(n + 1).1 == StepView::Finish(OutcomeView::Failure("filter has no JQL"@)),
{
    a_run_keeps_its_call(trace, n);
    let run = trace.after(n).0;
    let (event, now) = trace.inputs[n];
    assert(trace.after(n + 1) == resumed(trace.keep, run, event, now));
}

} // verus!
