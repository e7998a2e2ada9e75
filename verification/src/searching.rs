//! What a search answers: the issues of the page that came, those that may be
//! seen and no others, in their order, with what they tell of visible issues.

use vstd::prelude::*;
use vstd::string::*;

use crate::decisions::{alike_texts, case_is_all_that_may_differ};
use crate::flow::{classify_request, fresh, search_result, OutcomeView, StepView, Trace};
use crate::guard::{at_most, fetch_list};
use crate::json::JsonView;
use crate::keeping::{
    among_the_first, issue_mentions, keeps_the_issue, lemma_first_are_fetched, lemma_mentions,
    lemma_mentions_finite, plain_fields, scrubbing_takes_out_hidden_references_alone,
};
use crate::keyset::{admits, list_admits, sorted};
use crate::meta::meta_of;
use crate::outcomes::{
    asked_at, lemma_asked_at, lemma_relevant, lemma_seen_is_disclosed, lemma_summarised, seen_in,
    summarised,
};
use crate::policy::{decide, Capability, Operation, PolicyView};
use crate::project::summary_of;
use crate::requests::{least, lemma_search_stage, of_a_file, searches_for, wanted_of};
use crate::scrub::{refers_to, scrubbed};
use crate::search::{
    dropped_list, has_key, scan_of, served_list, served_view, some_refers_to, window_of, ScanView,
};
use crate::text::{before, same_ignoring_case, trimmed};
use crate::visibility::{
    asked, disclosed_from, names_only_visible, scanned_in_run, search_shows_only_visible_issues,
};

verus! {

/// When input `j` came, the policy let the caller do `cap` with an issue.
pub open spec fn may_then(trace: Trace, j: int, issue: JsonView, cap: Capability) -> bool {
    decide(
        trace.keep.policy,
        meta_of(
            issue,
            trace.after(j).0.caller,
            trace.keep.policy.global.public_projects,
        ),
        trace.inputs[j].1,
        Operation::Access,
    ).allows(cap)
}

/// The issues of a page.
pub open spec fn issues_of(page: JsonView) -> Seq<JsonView> {
    match page.items_at("issues"@) {
        Some(issues) => issues,
        None => Seq::empty(),
    }
}

/// The places of the issues of a page of which something may be seen, in order;
/// the first `limit` of them.
pub open spec fn places_of_visible(
    trace: Trace,
    j: int,
    issues: Seq<JsonView>,
    limit: int,
    at: Seq<int>,
) -> bool {
    &&& at.len() <= limit
    &&& forall|i: int, k: int| 0 <= i < k < at.len() ==> #[trigger] at[i] < #[trigger] at[k]
    &&& forall|i: int|
        0 <= i < at.len() ==> 0 <= #[trigger] at[i] < issues.len() && may_then(
            trace,
            j,
            issues[at[i]],
            Capability::Summary,
        )
    &&& forall|p: int|
        0 <= p < issues.len() && may_then(trace, j, #[trigger] issues[p], Capability::Summary)
            ==> at.contains(p) || (at.len() == limit && forall|i: int|
            0 <= i < at.len() ==> #[trigger] at[i] < p)
}

/// An issue of a page that may be seen has this key.
pub open spec fn on_the_page(trace: Trace, j: int, issues: Seq<JsonView>, key: Seq<char>) -> bool {
    exists|p: int|
        0 <= p < issues.len() && (#[trigger] issues[p]).text_at("key"@) == Some(key) && may_then(
            trace,
            j,
            issues[p],
            Capability::Summary,
        )
}

/// An issue of a page that may be seen has this key, or one that differs in
/// capitals.
pub open spec fn shown_on_the_page(
    trace: Trace,
    j: int,
    issues: Seq<JsonView>,
    key: Seq<char>,
) -> bool {
    exists|d: Seq<char>| #[trigger] on_the_page(trace, j, issues, d) && alike_texts(d, key)
}

/// What a page and the requests that followed it show to be visible: issues of
/// the page, and others that were asked for.
pub open spec fn seen_by_search(trace: Trace, j: int, to: int, issues: Seq<JsonView>) -> spec_fn(
    Seq<char>,
) -> bool {
    |key: Seq<char>|
        shown_on_the_page(trace, j, issues, key) || (seen_in(trace, j + 1, to, key)
            && !known_on_the_page(issues, key))
}

/// What may be told of an issue: all of it where the caller may read it, and its
/// summary otherwise.
pub open spec fn told_of(trace: Trace, j: int, issue: JsonView, view: JsonView) -> bool {
    if may_then(trace, j, issue, Capability::Read) {
        view == issue
    } else {
        summarised(issue, view)
    }
}

/// A key is that of an issue on the page, but for capitals.
pub open spec fn known_on_the_page(issues: Seq<JsonView>, key: Seq<char>) -> bool {
    exists|p: int|
        0 <= p < issues.len() && (#[trigger] issues[p]).text_at("key"@) is Some && alike_texts(
            issues[p].text_at("key"@)->0,
            key,
        )
}

/// The keys that the issues mention and that the page does not tell of.
pub open spec fn elsewhere(
    custom: Seq<Seq<char>>,
    issues: Seq<JsonView>,
    views: Seq<JsonView>,
) -> Set<Seq<char>> {
    Set::new(
        |k: Seq<char>|
            mentioned_by_some(views, custom, k) && (k.len() == 0 || !known_on_the_page(issues, k)),
    )
}

/// One of the issues mentions the key.
pub open spec fn mentioned_by_some(views: Seq<JsonView>, custom: Seq<Seq<char>>, key: Seq<char>) -> bool {
    exists|i: int| 0 <= i < views.len() && issue_mentions(#[trigger] views[i], custom, key)
}

/// A page came with input `j` in answer to the search. The result holds the
/// issues of the page that may be seen, in their order, as many as the call
/// wants, each as far as it may be seen and with every reference to issues that
/// may be; the issues that they mention elsewhere were asked for until step
/// `to`, up to the bound. The token of the next page is handed on.
#[verifier::opaque]
pub open spec fn search_kept(
    trace: Trace,
    n: int,
    j: int,
    to: int,
    page: JsonView,
    at: Seq<int>,
    views: Seq<JsonView>,
    result: JsonView,
) -> bool {
    let custom = trace.keep.policy.global.link_custom_fields;
    let issues = issues_of(page);
    let limit = least(wanted_of(trace.call).0 as int, 50);
    &&& 0 <= j < to <= n
    &&& trace.after(j).1 is Call && exists|jql: Seq<char>, by_token: bool| #[trigger]
        searches_for(trace.keep, trace.creds, trace.call, trace.after(j).1->Call_0, jql, by_token)
    &&& trace.document(j) == Some(page)
    &&& places_of_visible(trace, j, issues, limit, at)
    &&& views.len() == at.len()
    &&& forall|i: int|
        0 <= i < at.len() ==> told_of(trace, j, issues[at[i]], #[trigger] views[i])
    &&& forall|k: Seq<char>|
        elsewhere(custom, issues, views).contains(k) && trimmed(k).len() > 0 && among_the_first(
            elsewhere(custom, issues, views),
            k,
        ) ==> exists|m: int| j < m < to && asked_at(trace, m, #[trigger] trimmed(k))
    &&& result.items_at("issues"@) matches Some(few)
    &&& few.len() == at.len()
    &&& forall|i: int|
        0 <= i < at.len() ==> keeps_the_issue(
            views[i],
            #[trigger] few[i],
            custom,
            seen_by_search(trace, j, to, issues),
        )
    &&& result.get("nextPageToken"@) == Some(
        match page.text_at("nextPageToken"@) {
            Some(token) => JsonView::Text(token),
            None => JsonView::Null,
        },
    )
}

/// `at` are the places of the issues that are served.
spec fn served_at(
    policy: PolicyView,
    issues: Seq<JsonView>,
    caller: Option<Seq<char>>,
    now: int,
    at: Seq<int>,
) -> bool {
    let all = served_list(policy, issues, caller, now);
    &&& at.len() == all.len()
    &&& forall|i: int, k: int| 0 <= i < k < at.len() ==> #[trigger] at[i] < #[trigger] at[k]
    &&& forall|i: int|
        0 <= i < at.len() ==> 0 <= #[trigger] at[i] < issues.len() && served_view(
            policy,
            issues[at[i]],
            caller,
            now,
        ) == Some(all[i])
    &&& forall|p: int|
        0 <= p < issues.len() ==> at.contains(p) == (served_view(
            policy,
            #[trigger] issues[p],
            caller,
            now,
        ) is Some)
}

proof fn lemma_served_at(
    policy: PolicyView,
    issues: Seq<JsonView>,
    caller: Option<Seq<char>>,
    now: int,
) -> (at: Seq<int>)
    ensures
        served_at(policy, issues, caller, now, at),
    decreases issues.len(),
{
    if issues.len() == 0 {
        Seq::empty()
    } else {
        let rest = issues.drop_last();
        let before = lemma_served_at(policy, rest, caller, now);
        let all = served_list(policy, issues, caller, now);
        let last = served_view(policy, issues.last(), caller, now);
        let at = if last is Some {
            before.push(issues.len() - 1)
        } else {
            before
        };
        assert forall|i: int| 0 <= i < at.len() implies 0 <= #[trigger] at[i] < issues.len()
            && served_view(policy, issues[at[i]], caller, now) == Some(all[i]) by {
            if i < before.len() {
                assert(before[i] == at[i]);
                assert(rest[before[i]] == issues[at[i]]);
            }
        }
        assert forall|p: int| 0 <= p < issues.len() implies at.contains(p) == (served_view(
            policy,
            #[trigger] issues[p],
            caller,
            now,
        ) is Some) by {
            if p < rest.len() {
                assert(rest[p] == issues[p]);
                if before.contains(p) {
                    let x = choose|x: int| 0 <= x < before.len() && before[x] == p;
                    assert(at[x] == p);
                }
                if at.contains(p) {
                    let x = choose|x: int| 0 <= x < at.len() && at[x] == p;
                    assert(before[x] == p);
                }
            } else if last is Some {
                assert(at[before.len() as int] == p);
            } else if at.contains(p) {
                let x = choose|x: int| 0 <= x < at.len() && at[x] == p;
                assert(before[x] < rest.len());
            }
        }
        at
    }
}

proof fn lemma_dropped(
    policy: PolicyView,
    issues: Seq<JsonView>,
    caller: Option<Seq<char>>,
    now: int,
    key: Seq<char>,
)
    requires
        key.len() > 0,
    ensures
        dropped_list(policy, issues, caller, now).contains(key) <==> exists|p: int|
            0 <= p < issues.len() && (#[trigger] issues[p]).text_at("key"@) == Some(key)
                && served_view(policy, issues[p], caller, now) is None,
    decreases issues.len(),
{
    if issues.len() > 0 {
        let rest = issues.drop_last();
        lemma_dropped(policy, rest, caller, now, key);
        let earlier = dropped_list(policy, rest, caller, now);
        let all = dropped_list(policy, issues, caller, now);
        if all.contains(key) {
            let x = choose|x: int| 0 <= x < all.len() && all[x] == key;
            if x < earlier.len() {
                assert(earlier[x] == key);
                assert(earlier.contains(key));
                let p = choose|p: int|
                    0 <= p < rest.len() && (#[trigger] rest[p]).text_at("key"@) == Some(key)
                        && served_view(policy, rest[p], caller, now) is None;
                assert(issues[p] == rest[p]);
            } else {
                assert(issues[issues.len() - 1].text_at("key"@) == Some(key));
            }
        }
        if exists|p: int|
            0 <= p < issues.len() && (#[trigger] issues[p]).text_at("key"@) == Some(key)
                && served_view(policy, issues[p], caller, now) is None {
            let p = choose|p: int|
                0 <= p < issues.len() && (#[trigger] issues[p]).text_at("key"@) == Some(key)
                    && served_view(policy, issues[p], caller, now) is None;
            if p < rest.len() {
                assert(rest[p] == issues[p]);
                let x = choose|x: int| 0 <= x < earlier.len() && earlier[x] == key;
                assert(all[x] == key);
            } else {
                assert(all[earlier.len() as int] == key);
            }
        }
    }
}

proof fn lemma_summary_key(issue: JsonView)
    ensures
        summary_of(issue).text_at("key"@) == issue.text_at("key"@),
{
    lemma_summarised(issue);
}

/// The served issues of a page have a key exactly where one that may be seen
/// has it.
proof fn lemma_has_key(trace: Trace, j: int, issues: Seq<JsonView>, key: Seq<char>)
    ensures
        has_key(
            served_list(
                trace.keep.policy,
                issues,
                trace.after(j).0.caller,
                trace.inputs[j].1,
            ),
            key,
        ) == on_the_page(trace, j, issues, key),
{
    let policy = trace.keep.policy;
    let caller = trace.after(j).0.caller;
    let now = trace.inputs[j].1;
    let all = served_list(policy, issues, caller, now);
    let at = lemma_served_at(policy, issues, caller, now);
    if has_key(all, key) {
        let i = choose|i: int|
            0 <= i < all.len() && (#[trigger] all[i]).text_at("key"@) == Some(key);
        lemma_summary_key(issues[at[i]]);
        assert(issues[at[i]].text_at("key"@) == Some(key));
    }
    if on_the_page(trace, j, issues, key) {
        let p = choose|p: int|
            0 <= p < issues.len() && (#[trigger] issues[p]).text_at("key"@) == Some(key)
                && may_then(trace, j, issues[p], Capability::Summary);
        assert(served_view(policy, issues[p], caller, now) is Some);
        let i = choose|i: int| 0 <= i < at.len() && at[i] == p;
        lemma_summary_key(issues[p]);
        assert(all[i].text_at("key"@) == Some(key));
    }
}

/// What is left to be assessed is what the served issues mention elsewhere.
proof fn lemma_candidates(trace: Trace, j: int, page: JsonView, limit: int, k: Seq<char>)
    requires
        k.len() > 0,
    ensures
        ({
            let scan = scan_of(
                trace.keep.policy,
                page,
                limit,
                trace.after(j).0.caller,
                trace.inputs[j].1,
            );
            scan.candidates.contains(k) == elsewhere(
                trace.keep.policy.global.link_custom_fields,
                issues_of(page),
                scan.visible,
            ).contains(k)
        }),
{
    let policy = trace.keep.policy;
    let custom = policy.global.link_custom_fields;
    let caller = trace.after(j).0.caller;
    let now = trace.inputs[j].1;
    let issues = issues_of(page);
    let scan = scan_of(policy, page, limit, caller, now);
    let views = scan.visible;
    assert(some_refers_to(views, custom, k) == mentioned_by_some(views, custom, k)) by {
        if some_refers_to(views, custom, k) {
            let i = choose|i: int|
                0 <= i < views.len() && refers_to(#[trigger] views[i], custom, k);
            lemma_mentions(views[i], custom, k);
        }
        if mentioned_by_some(views, custom, k) {
            let i = choose|i: int|
                0 <= i < views.len() && issue_mentions(#[trigger] views[i], custom, k);
            lemma_mentions(views[i], custom, k);
        }
    }
    let known = admits(scan.disclosable, k) || list_admits(scan.dropped, k);
    assert(known == known_on_the_page(issues, k)) by {
        if admits(scan.disclosable, k) {
            let d = choose|d: Seq<char>| #[trigger]
                scan.disclosable.contains(d) && same_ignoring_case(d, k);
            lemma_has_key(trace, j, issues, d);
            let p = choose|p: int|
                0 <= p < issues.len() && (#[trigger] issues[p]).text_at("key"@) == Some(d)
                    && may_then(trace, j, issues[p], Capability::Summary);
            case_is_all_that_may_differ(d, k);
            assert(issues[p].text_at("key"@) is Some);
        }
        if list_admits(scan.dropped, k) {
            let x = choose|x: int|
                0 <= x < scan.dropped.len() && same_ignoring_case(#[trigger] scan.dropped[x], k);
            let d = scan.dropped[x];
            assert(scan.dropped.contains(d));
            lemma_dropped(policy, issues, caller, now, d);
            let p = choose|p: int|
                0 <= p < issues.len() && (#[trigger] issues[p]).text_at("key"@) == Some(d)
                    && served_view(policy, issues[p], caller, now) is None;
            case_is_all_that_may_differ(d, k);
            assert(issues[p].text_at("key"@) is Some);
        }
        if known_on_the_page(issues, k) {
            let p = choose|p: int|
                0 <= p < issues.len() && (#[trigger] issues[p]).text_at("key"@) is Some
                    && alike_texts(issues[p].text_at("key"@)->0, k);
            let d = issues[p].text_at("key"@)->0;
            case_is_all_that_may_differ(d, k);
            if served_view(policy, issues[p], caller, now) is Some {
                assert(may_then(trace, j, issues[p], Capability::Summary));
                lemma_has_key(trace, j, issues, d);
                assert(on_the_page(trace, j, issues, d));
                assert(scan.disclosable.contains(d));
            } else {
                lemma_dropped(policy, issues, caller, now, d);
                let x = choose|x: int| 0 <= x < scan.dropped.len() && scan.dropped[x] == d;
                assert(same_ignoring_case(scan.dropped[x], k));
            }
        }
    }
}

pub(crate) proof fn lemma_some_finite(views: Seq<JsonView>, custom: Seq<Seq<char>>)
    ensures
        Set::new(|k: Seq<char>| mentioned_by_some(views, custom, k)).finite(),
    decreases views.len(),
{
    let set = Set::new(|k: Seq<char>| mentioned_by_some(views, custom, k));
    if views.len() == 0 {
        assert(set =~= Set::empty());
    } else {
        let rest = views.drop_last();
        lemma_some_finite(rest, custom);
        lemma_mentions_finite(views.last(), custom);
        let earlier = Set::new(|k: Seq<char>| mentioned_by_some(rest, custom, k));
        let last = Set::new(|k: Seq<char>| issue_mentions(views.last(), custom, k));
        let most = earlier.union(last);
        assert forall|k: Seq<char>| #[trigger] set.contains(k) implies most.contains(k) by {
            let i = choose|i: int|
                0 <= i < views.len() && issue_mentions(#[trigger] views[i], custom, k);
            if i < rest.len() {
                assert(issue_mentions(rest[i], custom, k));
                assert(earlier.contains(k));
            } else {
                assert(last.contains(k));
            }
        }
        vstd::set_lib::lemma_set_subset_finite(most, set);
    }
}

proof fn lemma_visible_places(
    trace: Trace,
    j: int,
    issues: Seq<JsonView>,
    limit: int,
) -> (at: Seq<int>)
    requires
        0 <= limit,
    ensures
        ({
            let all = served_list(
                trace.keep.policy,
                issues,
                trace.after(j).0.caller,
                trace.inputs[j].1,
            );
            let views = at_most(all, limit);
            &&& places_of_visible(trace, j, issues, limit, at)
            &&& views.len() == at.len()
            &&& forall|i: int|
                0 <= i < at.len() ==> told_of(trace, j, issues[at[i]], #[trigger] views[i])
        }),
{
    let policy = trace.keep.policy;
    let caller = trace.after(j).0.caller;
    let now = trace.inputs[j].1;
    let all = served_list(policy, issues, caller, now);
    let full = lemma_served_at(policy, issues, caller, now);
    let views = at_most(all, limit);
    let at = full.take(views.len() as int);
    assert forall|p: int|
        0 <= p < issues.len() && may_then(
            trace,
            j,
            #[trigger] issues[p],
            Capability::Summary,
        ) implies at.contains(p) || (at.len() == limit && forall|i: int|
        0 <= i < at.len() ==> #[trigger] at[i] < p) by {
        assert(served_view(policy, issues[p], caller, now) is Some);
        let x = choose|x: int| 0 <= x < full.len() && full[x] == p;
        if x < at.len() {
            assert(at[x] == p);
        } else {
            assert forall|i: int| 0 <= i < at.len() implies #[trigger] at[i] < p by {
                assert(full[i] < full[x]);
            }
        }
    }
    assert forall|i: int| 0 <= i < at.len() implies 0 <= #[trigger] at[i] < issues.len()
        && may_then(trace, j, issues[at[i]], Capability::Summary) by {
        assert(at[i] == full[i]);
        assert(served_view(policy, issues[full[i]], caller, now) is Some);
    }
    assert forall|i: int| 0 <= i < at.len() implies told_of(
        trace,
        j,
        issues[at[i]],
        #[trigger] views[i],
    ) by {
        assert(at[i] == full[i]);
        lemma_summarised(issues[at[i]]);
    }
    assert forall|i: int, k: int| 0 <= i < k < at.len() implies #[trigger] at[i]
        < #[trigger] at[k] by {
        assert(full[i] < full[k]);
    }
    at
}

pub(crate) proof fn lemma_result_members(
    policy: PolicyView,
    scan: ScanView,
    extra: Set<Seq<char>>,
)
    ensures
        ({
            let result = search_result(window_of(policy, scan, extra));
            &&& result.items_at("issues"@) == Some(window_of(policy, scan, extra).issues)
            &&& result.get("nextPageToken"@) == Some(
                match scan.next_page_token {
                    Some(token) => JsonView::Text(token),
                    None => JsonView::Null,
                },
            )
        }),
{
    reveal_strlit("issues");
    reveal_strlit("nextPageToken");
    assert("issues"@.len() == 6);
    assert("nextPageToken"@.len() == 13);
}

/// What the page or the requests show to be visible may be disclosed, of the
/// keys that matter.
proof fn lemma_seen_by_search(
    trace: Trace,
    n: int,
    j: int,
    page: JsonView,
    limit: int,
    extra: Set<Seq<char>>,
    k: Seq<char>,
)
    requires
        ({
            let scan = scan_of(
                trace.keep.policy,
                page,
                limit,
                trace.after(j).0.caller,
                trace.inputs[j].1,
            );
            &&& disclosed_from(trace, n, j + 1, scan.candidates, extra)
            &&& scan.candidates.finite()
            &&& mentioned_by_some(
                scan.visible,
                trace.keep.policy.global.link_custom_fields,
                k,
            )
            &&& seen_by_search(
                trace,
                j,
                j + 1 + fetch_list(sorted(scan.candidates)).len(),
                issues_of(page),
            )(k)
        }),
    ensures
        ({
            let scan = scan_of(
                trace.keep.policy,
                page,
                limit,
                trace.after(j).0.caller,
                trace.inputs[j].1,
            );
            admits(scan.disclosable.union(extra), k)
        }),
{
    let scan = scan_of(
        trace.keep.policy,
        page,
        limit,
        trace.after(j).0.caller,
        trace.inputs[j].1,
    );
    let issues = issues_of(page);
    let wanted = fetch_list(sorted(scan.candidates));
    let all = scan.disclosable.union(extra);
    if shown_on_the_page(trace, j, issues, k) {
        let d = choose|d: Seq<char>| #[trigger]
            on_the_page(trace, j, issues, d) && alike_texts(d, k);
        lemma_has_key(trace, j, issues, d);
        case_is_all_that_may_differ(d, k);
        assert(all.contains(d) && same_ignoring_case(d, k));
    } else {
        lemma_candidates(trace, j, page, limit, k);
        assert(asked(trace, j + 1 + wanted.len(), j + 1, wanted));
        lemma_seen_is_disclosed(trace, j + 1, scan.candidates, k);
        assert(all.contains(k) && same_ignoring_case(k, k));
    }
}

pub(crate) proof fn lemma_search_kept(
    trace: Trace,
    n: int,
    j: int,
    scan: ScanView,
    extra: Set<Seq<char>>,
)
    requires
        0 <= n <= trace.inputs.len(),
        of_a_file(trace.keep),
        plain_fields(trace.keep.policy.global.link_custom_fields),
        scanned_in_run(trace, n, j, scan),
        disclosed_from(trace, n, j + 1, scan.candidates, extra),
    ensures
        exists|to: int, at: Seq<int>| #[trigger]
            search_kept(
                trace,
                n,
                j,
                to,
                trace.document(j)->0,
                at,
                scan.visible,
                search_result(window_of(trace.keep.policy, scan, extra)),
            ),
{
    reveal(search_kept);
    let policy = trace.keep.policy;
    let custom = policy.global.link_custom_fields;
    let page = trace.document(j)->0;
    let issues = issues_of(page);
    let limit = trace.after(j).0.stage->Search_limit;
    let views = scan.visible;
    let wanted = fetch_list(sorted(scan.candidates));
    let to = j + 1 + wanted.len();
    let result = search_result(window_of(policy, scan, extra));
    lemma_search_stage(trace, j);
    let at = lemma_visible_places(trace, j, issues, limit);
    lemma_result_members(policy, scan, extra);
    // Which keys are assessed.
    lemma_some_finite(views, custom);
    let most = Set::new(|k: Seq<char>| mentioned_by_some(views, custom, k));
    assert forall|k: Seq<char>| #[trigger] scan.candidates.contains(k) implies most.contains(k) by {
        let i = choose|i: int| 0 <= i < views.len() && refers_to(#[trigger] views[i], custom, k);
        lemma_mentions(views[i], custom, k);
    }
    vstd::set_lib::lemma_set_subset_finite(most, scan.candidates);
    lemma_search_asked(trace, n, j, page, limit, extra, to);
    // What is kept of each issue.
    let few = result.items_at("issues"@)->0;
    let view = seen_by_search(trace, j, to, issues);
    let all = scan.disclosable.union(extra);
    assert forall|i: int| 0 <= i < at.len() implies keeps_the_issue(
        views[i],
        #[trigger] few[i],
        custom,
        view,
    ) by {
        let named = Set::new(|k: Seq<char>| issue_mentions(views[i], custom, k));
        let relevant = |k: Seq<char>| view(k) && named.contains(k);
        assert forall|k: Seq<char>| #[trigger] relevant(k) implies admits(all, k) by {
            assert(mentioned_by_some(views, custom, k));
            lemma_seen_by_search(trace, n, j, page, limit, extra, k);
        }
        assert(few[i] == scrubbed(views[i], custom, all));
        scrubbing_takes_out_hidden_references_alone(views[i], custom, all, relevant);
        lemma_relevant(views[i], few[i], custom, view, relevant, named);
    }
    assert(search_kept(trace, n, j, to, page, at, views, result));
}

/// The keys that the issues mention elsewhere are asked for.
proof fn lemma_search_asked(
    trace: Trace,
    n: int,
    j: int,
    page: JsonView,
    limit: int,
    extra: Set<Seq<char>>,
    to: int,
)
    requires
        ({
            let scan = scan_of(
                trace.keep.policy,
                page,
                limit,
                trace.after(j).0.caller,
                trace.inputs[j].1,
            );
            &&& disclosed_from(trace, n, j + 1, scan.candidates, extra)
            &&& scan.candidates.finite()
            &&& to == j + 1 + fetch_list(sorted(scan.candidates)).len()
        }),
    ensures
        ({
            let scan = scan_of(
                trace.keep.policy,
                page,
                limit,
                trace.after(j).0.caller,
                trace.inputs[j].1,
            );
            let others = elsewhere(
                trace.keep.policy.global.link_custom_fields,
                issues_of(page),
                scan.visible,
            );
            forall|k: Seq<char>|
                others.contains(k) && trimmed(k).len() > 0 && among_the_first(others, k)
                    ==> exists|m: int| j < m < to && asked_at(trace, m, #[trigger] trimmed(k))
        }),
{
    let custom = trace.keep.policy.global.link_custom_fields;
    let scan = scan_of(
        trace.keep.policy,
        page,
        limit,
        trace.after(j).0.caller,
        trace.inputs[j].1,
    );
    let others = elsewhere(custom, issues_of(page), scan.visible);
    let wanted = fetch_list(sorted(scan.candidates));
    lemma_some_finite(scan.visible, custom);
    let most = Set::new(|k: Seq<char>| mentioned_by_some(scan.visible, custom, k));
    assert(others.subset_of(most));
    vstd::set_lib::lemma_set_subset_finite(most, others);
    assert forall|k: Seq<char>| #[trigger] scan.candidates.contains(k) implies others.contains(
        k,
    ) by {
        let views = scan.visible;
        let i = choose|i: int| 0 <= i < views.len() && refers_to(#[trigger] views[i], custom, k);
        lemma_mentions(views[i], custom, k);
        if k.len() > 0 {
            lemma_candidates(trace, j, page, limit, k);
        }
    }
    assert forall|k: Seq<char>|
        others.contains(k) && trimmed(k).len() > 0 && among_the_first(
            others,
            k,
        ) implies exists|m: int| j < m < to && asked_at(trace, m, #[trigger] trimmed(k)) by {
        if k.len() == 0 {
            crate::wording::trimming_takes_white_space_off_the_ends(k);
        }
        lemma_candidates(trace, j, page, limit, k);
        let fewer = scan.candidates.filter(|d: Seq<char>| before(d, k));
        let more = others.filter(|d: Seq<char>| before(d, k));
        assert(fewer.subset_of(more));
        vstd::set_lib::lemma_len_subset(fewer, more);
        lemma_first_are_fetched(scan.candidates, k);
        let x = choose|x: int| 0 <= x < wanted.len() && wanted[x] == trimmed(k);
        assert(trace.after(j + 1 + x).1 == StepView::Call(
            classify_request(trace.keep, fresh(trace.call, trace.creds), wanted[x]),
        ));
        lemma_asked_at(trace, j + 1 + x, trimmed(k));
    }
}

/// Whatever the site answers, a search is answered with the issues of a page
/// that came for it: all that may be seen, as many as the call wants and in
/// their order, each with every reference to issues that may be seen.
pub proof fn search_keeps_what_may_be_seen(trace: Trace, n: int)
    requires
        0 <= n <= trace.inputs.len(),
        of_a_file(trace.keep),
        trace.call is IssuesSearch || trace.call is SearchFilter,
        plain_fields(trace.keep.policy.global.link_custom_fields),
        trace.after(n).1 matches StepView::Finish(OutcomeView::Success(_)),
    ensures
        exists|j: int, to: int, page: JsonView, at: Seq<int>, views: Seq<JsonView>| #[trigger]
            search_kept(
                trace,
                n,
                j,
                to,
                page,
                at,
                views,
                trace.after(n).1->Finish_0->Success_0,
            ),
{
    search_shows_only_visible_issues(trace, n);
    let result = trace.after(n).1->Finish_0->Success_0;
    let (j, scan, extra) = choose|j: int, scan: ScanView, extra: Set<Seq<char>>|
        {
            let window = #[trigger] window_of(trace.keep.policy, scan, extra);
            &&& #[trigger] scanned_in_run(trace, n, j, scan)
            &&& disclosed_from(trace, n, j + 1, scan.candidates, extra)
            &&& result == search_result(window)
            &&& forall|i: int|
                0 <= i < window.issues.len() ==> names_only_visible(
                    trace,
                    n,
                    #[trigger] window.issues[i],
                )
        };
    lemma_search_kept(trace, n, j, scan, extra);
    let (to, at) = choose|to: int, at: Seq<int>| #[trigger]
        search_kept(
            trace,
            n,
            j,
            to,
            trace.document(j)->0,
            at,
            scan.visible,
            search_result(window_of(trace.keep.policy, scan, extra)),
        );
    assert(search_kept(trace, n, j, to, trace.document(j)->0, at, scan.visible, result));
}

} // verus!
