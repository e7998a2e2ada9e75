//! What is hidden: no result tells of an issue that the site's answers did not
//! show to be visible to the caller.

use vstd::prelude::*;
use vstd::string::*;

use crate::decisions::{alike_texts, case_is_all_that_may_differ};
use crate::flow::{classify_request, fresh, OutcomeView, StepView, Trace};
use crate::guard::{distinct_keys, fetch_list, lemma_distinct_keys};
use crate::json::JsonView;
use crate::keeping::{issue_mentions, lemma_mentions};
use crate::keyset::{admits, sorted};
use crate::outcomes::{came_at, lemma_asked_at, may, seen_in};
use crate::policy::Capability;
use crate::scrub::{key_like, redacted, redacted_changelog_names_only_disclosable};
use crate::searching::{issues_of, may_then, on_the_page};
use crate::text::{same_ignoring_case, trimmed};
use crate::visibility::{
    changelog_came, details_in_order, details_keys, details_show_only_visible_issues,
    disclosed_from, disclosed_in_run, found_in_run, history_is_the_changelog_that_came,
    names_only_visible, scanned_in_run, search_shows_only_visible_issues, shown_visible,
};

verus! {

/// The issue `key` may be seen: by what the site answered when the run asked for
/// it, or as one of the issues on a page that the site answered a search with.
#[verifier::opaque]
pub open spec fn may_be_told(trace: Trace, n: int, key: Seq<char>) -> bool {
    exists|d: Seq<char>| #[trigger] was_seen(trace, n, d) && alike_texts(d, key)
}

/// The first `n` inputs show the issue with just this key to be visible.
pub open spec fn was_seen(trace: Trace, n: int, key: Seq<char>) -> bool {
    ||| exists|from: int, to: int|
        0 <= from <= to <= n && #[trigger] seen_in(trace, from, to, key)
    ||| exists|j: int|
        0 <= j < n && trace.after(j).0.stage is Search && #[trigger] page_shows(trace, j, key)
}

/// The page that came with input `j` has the issue, and it may be seen.
pub open spec fn page_shows(trace: Trace, j: int, key: Seq<char>) -> bool {
    trace.document(j) is Some && on_the_page(trace, j, issues_of(trace.document(j)->0), key)
}

proof fn lemma_disclosed_was_seen(
    trace: Trace,
    n: int,
    from: int,
    named: Set<Seq<char>>,
    key: Seq<char>,
)
    requires
        disclosed_in_run(trace, n, from, named, key),
    ensures
        was_seen(trace, n, key),
{
    let list = sorted(named);
    let wanted = fetch_list(list);
    let to = from + wanted.len();
    let docs = trace.documents(from, wanted.len() as int);
    let i = choose|i: int| 0 <= i < list.len() && trimmed(#[trigger] list[i]) == key;
    crate::wording::trimming_once_is_enough(list[i]);
    assert(wanted.contains(key));
    let x = wanted.index_of(key);
    assert(0 <= x < wanted.len() && wanted[x] == key);
    assert(trace.after(from + x).1 == StepView::Call(
        classify_request(trace.keep, fresh(trace.call, trace.creds), wanted[x]),
    ));
    lemma_asked_at(trace, from + x, key);
    let issue = docs[x]->0;
    assert(came_at(trace, from + x, key, issue));
    assert(may(trace, to, issue, Capability::Summary));
    assert(seen_in(trace, from, to, key));
}

proof fn lemma_found_was_seen(trace: Trace, n: int, j: int, i: int, key: Seq<char>)
    requires
        found_in_run(trace, n, j, i, key),
    ensures
        was_seen(trace, n, key),
{
    let page = trace.document(j)->0;
    let issues = issues_of(page);
    assert(issues == crate::search::found(page));
    assert(may_then(trace, j, issues[i], Capability::Summary));
    assert(issues[i].text_at("key"@) == Some(key));
    assert(page_shows(trace, j, key));
}

pub(crate) proof fn lemma_may_be_told(trace: Trace, n: int, key: Seq<char>)
    requires
        shown_visible(trace, n, key),
    ensures
        may_be_told(trace, n, key),
{
    reveal(may_be_told);
    if exists|d: Seq<char>, from: int, named: Set<Seq<char>>| #[trigger]
        disclosed_in_run(trace, n, from, named, d) && same_ignoring_case(d, key) {
        let (d, from, named) = choose|d: Seq<char>, from: int, named: Set<Seq<char>>| #[trigger]
            disclosed_in_run(trace, n, from, named, d) && same_ignoring_case(d, key);
        lemma_disclosed_was_seen(trace, n, from, named, d);
        case_is_all_that_may_differ(d, key);
    } else {
        let (d, j, i) = choose|d: Seq<char>, j: int, i: int| #[trigger]
            found_in_run(trace, n, j, i, d) && same_ignoring_case(d, key);
        lemma_found_was_seen(trace, n, j, i, d);
        case_is_all_that_may_differ(d, key);
    }
}

/// No custom field for links is one of those that a summary shows.
pub open spec fn apart_from_summaries(custom: Seq<Seq<char>>) -> bool {
    forall|i: int| 0 <= i < custom.len() ==> !crate::outcomes::of_a_summary(#[trigger] custom[i])
}

/// Whatever the site answers, an issue among the details mentions no other, in
/// its links, as its parent, as a subtask or in a declared link field, but such
/// as the caller may see.
pub proof fn details_mention_only_what_may_be_seen(trace: Trace, n: int, i: int, key: Seq<char>)
    requires
        0 <= n <= trace.inputs.len(),
        trace.call is IssueInfo,
        apart_from_summaries(trace.keep.policy.global.link_custom_fields),
        trace.after(n).1 matches StepView::Finish(OutcomeView::Success(_)),
        0 <= i < trace.after(n).1->Finish_0->Success_0.items_at("issues"@)->0.len(),
        trace.after(n).1->Finish_0->Success_0.items_at("issues"@)->0[i].get("fields"@) is Some,
        issue_mentions(
            trace.after(n).1->Finish_0->Success_0.items_at("issues"@)->0[i],
            trace.keep.policy.global.link_custom_fields,
            key,
        ),
    ensures
        may_be_told(trace, n, key),
{
    details_show_only_visible_issues(trace, n);
    let result = trace.after(n).1->Finish_0->Success_0;
    let keys = details_keys(trace.call);
    let info = choose|info: crate::flow::InfoView| #[trigger]
        details_in_order(trace, n, keys, info) && info.next == keys.len() && result
            == crate::visibility::details_result(info);
    crate::outcomes::lemma_details_members(info);
    lemma_detail_mentions(trace, n, keys, info, i, key);
}

proof fn lemma_detail_mentions(
    trace: Trace,
    n: int,
    keys: Seq<Seq<char>>,
    info: crate::flow::InfoView,
    i: int,
    key: Seq<char>,
)
    requires
        apart_from_summaries(trace.keep.policy.global.link_custom_fields),
        details_in_order(trace, n, keys, info),
        0 <= i < info.issues.len(),
        info.issues[i].get("fields"@) is Some,
        issue_mentions(info.issues[i], trace.keep.policy.global.link_custom_fields, key),
    ensures
        may_be_told(trace, n, key),
{
    let custom = trace.keep.policy.global.link_custom_fields;
    assert(crate::visibility::custom_fields_apart(trace.keep)) by {
        assert forall|c: int| 0 <= c < custom.len() implies !crate::project::summary_field(
            #[trigger] custom[c],
        ) by {
            assert(!crate::outcomes::of_a_summary(custom[c]));
        }
    }
    assert(crate::visibility::detail_in_order(trace, n, keys, info, info.issues[i], i));
    lemma_mentions(info.issues[i], custom, key);
    assert(names_only_visible(trace, n, info.issues[i]));
    lemma_may_be_told(trace, n, key);
}

/// Whatever the site answers, an issue that a search shows mentions no other but
/// such as the caller may see.
pub proof fn a_search_mentions_only_what_may_be_seen(trace: Trace, n: int, i: int, key: Seq<char>)
    requires
        0 <= n <= trace.inputs.len(),
        trace.call is IssuesSearch || trace.call is SearchFilter,
        trace.after(n).1 matches StepView::Finish(OutcomeView::Success(_)),
        0 <= i < trace.after(n).1->Finish_0->Success_0.items_at("issues"@)->0.len(),
        trace.after(n).1->Finish_0->Success_0.items_at("issues"@)->0[i].get("fields"@) is Some,
        issue_mentions(
            trace.after(n).1->Finish_0->Success_0.items_at("issues"@)->0[i],
            trace.keep.policy.global.link_custom_fields,
            key,
        ),
    ensures
        may_be_told(trace, n, key),
{
    search_shows_only_visible_issues(trace, n);
    let result = trace.after(n).1->Finish_0->Success_0;
    let (j, scan, extra) = choose|j: int, scan: crate::search::ScanView, extra: Set<Seq<char>>|
        {
            let window = #[trigger] crate::search::window_of(trace.keep.policy, scan, extra);
            &&& #[trigger] scanned_in_run(trace, n, j, scan)
            &&& disclosed_from(trace, n, j + 1, scan.candidates, extra)
            &&& result == crate::flow::search_result(window)
            &&& forall|i: int|
                0 <= i < window.issues.len() ==> names_only_visible(
                    trace,
                    n,
                    #[trigger] window.issues[i],
                )
        };
    crate::searching::lemma_result_members(trace.keep.policy, scan, extra);
    let window = crate::search::window_of(trace.keep.policy, scan, extra);
    lemma_mentions(window.issues[i], trace.keep.policy.global.link_custom_fields, key);
    assert(names_only_visible(trace, n, window.issues[i]));
    lemma_may_be_told(trace, n, key);
}

/// Whatever the site answers, what looks like an issue key in a history, as a
/// value that something was changed from or to, is the key of an issue that the
/// caller may see.
pub proof fn a_history_tells_only_what_may_be_seen(
    trace: Trace,
    n: int,
    list: Seq<char>,
    entry: int,
    change: int,
    key: Seq<char>,
)
    requires
        0 <= n <= trace.inputs.len(),
        trace.call is IssueHistory,
        trace.after(n).1 matches StepView::Finish(OutcomeView::Success(_)),
        key_like(key),
        crate::answers::told_at(trace.after(n).1->Finish_0->Success_0, list, entry, change, key),
    ensures
        may_be_told(trace, n, key),
{
    history_is_the_changelog_that_came(trace, n);
    let result = trace.after(n).1->Finish_0->Success_0;
    let (j, changelog, set) = choose|j: int, changelog: JsonView, set: Set<Seq<char>>|
        {
            &&& #[trigger] changelog_came(trace, n, j, changelog)
            &&& result == #[trigger] redacted(changelog, set)
            &&& disclosed_from(
                trace,
                n,
                j + 1,
                crate::flow::changelog_keys(trace.call->IssueHistory_0.key@, changelog),
                set,
            )
            &&& forall|k: Seq<char>| #[trigger] admits(set, k) ==> shown_visible(trace, n, k)
        };
    let changes = result.items_at(list)->0[entry].items_at("items"@)->0;
    let at = crate::scrub::change_at(result, list, entry, change);
    assert(at == Some(changes[change]));
    let name = if changes[change].text_at("from"@) == Some(key) {
        "from"@
    } else if changes[change].text_at("to"@) == Some(key) {
        "to"@
    } else if changes[change].text_at("fromString"@) == Some(key) {
        "fromString"@
    } else {
        "toString"@
    };
    redacted_changelog_names_only_disclosable(changelog, set, list, entry, change, name);
    assert(shown_visible(trace, n, key));
    lemma_may_be_told(trace, n, key);
}

// --- bounds -----------------------------------------------------------------

/// One assessment asks for no more than twenty-five issues, for none of them
/// twice and for none without a key.
pub proof fn an_assessment_is_bounded(keys: Seq<Seq<char>>, i: int)
    requires
        0 <= i < fetch_list(keys).len(),
    ensures
        fetch_list(keys).len() <= 25,
        fetch_list(keys).no_duplicates(),
        fetch_list(keys)[i].len() > 0,
        trimmed(fetch_list(keys)[i]) == fetch_list(keys)[i],
        exists|p: int| 0 <= p < keys.len() && trimmed(#[trigger] keys[p]) == fetch_list(keys)[i],
{
    lemma_distinct_keys(keys);
    let all = distinct_keys(keys);
    assert(fetch_list(keys)[i] == all[i]);
    assert(all.contains(all[i]));
    let p = choose|p: int| 0 <= p < keys.len() && trimmed(#[trigger] keys[p]) == all[i];
    crate::wording::trimming_once_is_enough(keys[p]);
    assert(fetch_list(keys).no_duplicates()) by {
        let few = fetch_list(keys);
        assert forall|a: int, b: int|
            0 <= a < few.len() && 0 <= b < few.len() && a != b implies few[a] != few[b] by {
            assert(few[a] == all[a] && few[b] == all[b]);
        }
    }
}

/// A call for the details of more than twenty-five issues is refused before the
/// site is asked for any of them.
pub proof fn too_many_keys_are_refused(trace: Trace, n: int)
    requires
        0 <= n <= trace.inputs.len(),
        trace.call is IssueInfo,
        details_keys(trace.call).len() > 25,
    ensures
        trace.after(n).1 is Call ==> n == 0 && trace.after(n).0.stage is Identity,
        trace.after(n).1 is Finish ==> trace.after(n).1->Finish_0 is Failure,
    decreases n,
{
    if n > 0 {
        too_many_keys_are_refused(trace, n - 1);
        crate::outcomes::lemma_few_keys(trace, n - 1);
    }
}

} // verus!
