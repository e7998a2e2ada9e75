//! What a call comes to, over whole runs: results hold what the site answered,
//! less what the policy keeps from the caller, and no less.

use vstd::prelude::*;
use vstd::string::*;

use crate::client::{escaped, escaping_keeps_texts_apart};
use crate::flow::{
    classify_request, cleaned, disclosed_keys, fresh, issue_keys, OutcomeView, StepView, Trace,
};
use crate::guard::{assessment_of, fetch_list, fetched_for, lemma_fetch_list};
use crate::json::JsonView;
use crate::keeping::{
    among_the_first, issue_mentions, keeps_the_issue, lemma_first_are_fetched, lemma_mentions,
    lemma_mentions_finite, plain_fields, scrubbing_takes_out_hidden_references_alone,
};
use crate::keyset::{admits, sorted};
use crate::meta::meta_of;
use crate::policy::{decide, AccessView, Capability, Operation};
use crate::project::{
    comment_shown, restricted, served_comments, stripping_keeps_the_rest, summary_of, ungated,
    ungated_issue,
};
use crate::requests::{address, asks, asks_to_classify, to_issue};
use crate::server::KeepView;
use crate::text::{same_ignoring_case, trimmed};
use crate::visibility::{
    asked, assessed_in_run, detail_in_order, details_in_order, details_keys,
    details_show_only_visible_issues, invisible_keys, visible, visible_places, whole_served,
};

verus! {

// --- what the site shows ----------------------------------------------------

/// Step `m` asks for what the issue `key` is classified by.
pub open spec fn asked_at(trace: Trace, m: int, key: Seq<char>) -> bool {
    trace.after(m).1 is Call && asks_to_classify(
        trace.keep,
        trace.creds,
        trace.after(m).1->Call_0,
        key,
    )
}

/// Step `m` asks for the issue `key`, and `issue` is what came.
pub open spec fn came_at(trace: Trace, m: int, key: Seq<char>, issue: JsonView) -> bool {
    asked_at(trace, m, key) && trace.document(m) == Some(issue)
}

/// Where the run stands after its first `to` inputs, the policy lets the caller
/// do `cap` with an issue.
pub open spec fn may(trace: Trace, to: int, issue: JsonView, cap: Capability) -> bool {
    decide(
        trace.keep.policy,
        meta_of(
            issue,
            trace.after(to).0.caller,
            trace.keep.policy.global.public_projects,
        ),
        trace.time(to),
        Operation::Access,
    ).allows(cap)
}

/// Between two points of a run the site was asked for the issue `key`, and what
/// came may be seen, at least in summary.
pub open spec fn seen_in(trace: Trace, from: int, to: int, key: Seq<char>) -> bool {
    &&& key.len() > 0
    &&& trimmed(key) == key
    &&& exists|m: int, issue: JsonView|
        from <= m < to && #[trigger] came_at(trace, m, key, issue) && may(
            trace,
            to,
            issue,
            Capability::Summary,
        )
}

/// [`seen_in`] as a predicate on keys.
pub open spec fn seen(trace: Trace, from: int, to: int) -> spec_fn(Seq<char>) -> bool {
    |key: Seq<char>| seen_in(trace, from, to, key)
}

/// The address of an issue tells its key.
proof fn lemma_one_address(keep: KeepView, a: Seq<char>, b: Seq<char>)
    requires
        address(keep, to_issue(a, Seq::empty())) == address(keep, to_issue(b, Seq::empty())),
    ensures
        a == b,
{
    let head = address(keep, "/issue/"@);
    let x = address(keep, to_issue(a, Seq::empty()));
    let y = address(keep, to_issue(b, Seq::empty()));
    assert(x =~= head + escaped(a));
    assert(y =~= head + escaped(b));
    assert(x.skip(head.len() as int) =~= escaped(a));
    assert(y.skip(head.len() as int) =~= escaped(b));
    escaping_keeps_texts_apart(a, b);
}

/// A request to classify an issue is for that issue.
proof fn lemma_one_key(trace: Trace, m: int, a: Seq<char>, b: Seq<char>)
    requires
        asked_at(trace, m, a),
        trace.after(m).1 == StepView::Call(
            classify_request(trace.keep, fresh(trace.call, trace.creds), b),
        ),
    ensures
        a == b,
{
    let request = trace.after(m).1->Call_0;
    assert(request.url =~= address(trace.keep, to_issue(b, Seq::empty())));
    lemma_one_address(trace.keep, a, b);
}

pub(crate) proof fn lemma_asked_at(trace: Trace, m: int, key: Seq<char>)
    requires
        trace.after(m).1 == StepView::Call(
            classify_request(trace.keep, fresh(trace.call, trace.creds), key),
        ),
    ensures
        asked_at(trace, m, key),
{
    let request = trace.after(m).1->Call_0;
    assert(request.headers[0] == ("Accept"@, "application/json"@));
}

/// A key that was asked for and whose issue may be seen is one that may be
/// disclosed.
pub(crate) proof fn lemma_seen_is_disclosed(
    trace: Trace,
    from: int,
    named: Set<Seq<char>>,
    key: Seq<char>,
)
    requires
        named.finite(),
        named.contains(key),
        ({
            let wanted = fetch_list(sorted(named));
            &&& asked(trace, from + wanted.len(), from, wanted)
            &&& seen_in(trace, from, from + wanted.len(), key)
        }),
    ensures
        ({
            let wanted = fetch_list(sorted(named));
            let to = from + wanted.len();
            disclosed_keys(
                trace.keep.policy,
                named,
                trace.documents(from, wanted.len() as int),
                trace.after(to).0.caller,
                trace.time(to),
            ).contains(key)
        }),
{
    let list = sorted(named);
    let wanted = fetch_list(list);
    let to = from + wanted.len();
    let docs = trace.documents(from, wanted.len() as int);
    let (m, issue) = choose|m: int, issue: JsonView|
        from <= m < to && #[trigger] came_at(trace, m, key, issue) && may(
            trace,
            to,
            issue,
            Capability::Summary,
        );
    let x = m - from;
    assert(trace.after(from + x).1 == StepView::Call(
        classify_request(trace.keep, fresh(trace.call, trace.creds), wanted[x]),
    ));
    lemma_one_key(trace, m, key, wanted[x]);
    lemma_fetch_list(list, x);
    crate::keeping::lemma_sorted_set(named);
    assert(list.to_set().contains(key));
    assert(docs[x] == Some(issue));
    assert(fetched_for(wanted, docs, key) == Some(issue));
}

// --- picking from a list ----------------------------------------------------

/// `at` are the places in `all` where the elements of `few` stand, in order, and
/// they are the places of just those that `wanted` holds of.
pub open spec fn picked_at(
    all: Seq<JsonView>,
    few: Seq<JsonView>,
    wanted: spec_fn(JsonView) -> bool,
    at: Seq<int>,
) -> bool {
    &&& at.len() == few.len()
    &&& forall|i: int|
        0 <= i < at.len() ==> 0 <= #[trigger] at[i] < all.len() && few[i] == all[at[i]]
    &&& forall|i: int, j: int| 0 <= i < j < at.len() ==> #[trigger] at[i] < #[trigger] at[j]
    &&& forall|p: int| 0 <= p < all.len() ==> at.contains(p) == wanted(#[trigger] all[p])
}

/// The elements of `few` are those of `all` that `wanted` holds of, each of them
/// and in the same order.
pub open spec fn picked(
    all: Seq<JsonView>,
    few: Seq<JsonView>,
    wanted: spec_fn(JsonView) -> bool,
) -> bool {
    exists|at: Seq<int>| #[trigger] picked_at(all, few, wanted, at)
}

pub(crate) proof fn lemma_filter_picks(all: Seq<JsonView>, wanted: spec_fn(JsonView) -> bool)
    ensures
        picked(all, all.filter(wanted), wanted),
    decreases all.len(),
{
    reveal(Seq::filter);
    if all.len() == 0 {
        assert(picked_at(all, all.filter(wanted), wanted, Seq::empty()));
    } else {
        let rest = all.drop_last();
        lemma_filter_picks(rest, wanted);
        let before = choose|at: Seq<int>| #[trigger]
            picked_at(rest, rest.filter(wanted), wanted, at);
        let few = all.filter(wanted);
        let at = if wanted(all.last()) {
            before.push(all.len() - 1)
        } else {
            before
        };
        assert forall|p: int| 0 <= p < all.len() implies at.contains(p) == wanted(
            #[trigger] all[p],
        ) by {
            if p < rest.len() {
                assert(rest[p] == all[p]);
                if before.contains(p) {
                    let x = choose|x: int| 0 <= x < before.len() && before[x] == p;
                    assert(at[x] == p);
                }
                if at.contains(p) {
                    let x = choose|x: int| 0 <= x < at.len() && at[x] == p;
                    assert(before[x] == p);
                }
            } else {
                if wanted(all.last()) {
                    assert(at[before.len() as int] == p);
                } else if at.contains(p) {
                    let x = choose|x: int| 0 <= x < at.len() && at[x] == p;
                    assert(before[x] < rest.len());
                }
            }
        }
        assert forall|i: int| 0 <= i < at.len() implies 0 <= #[trigger] at[i] < all.len() && few[i]
            == all[at[i]] by {
            if i < before.len() {
                assert(before[i] == at[i]);
                assert(rest[before[i]] == all[at[i]]);
            }
        }
        assert(picked_at(all, few, wanted, at));
    }
}

/// What is wanted may be said in another way.
pub(crate) proof fn lemma_picked_same(
    all: Seq<JsonView>,
    few: Seq<JsonView>,
    a: spec_fn(JsonView) -> bool,
    b: spec_fn(JsonView) -> bool,
)
    requires
        picked(all, few, a),
        forall|v: JsonView| #[trigger] a(v) == b(v),
    ensures
        picked(all, few, b),
{
    let at = choose|at: Seq<int>| #[trigger] picked_at(all, few, a, at);
    assert(picked_at(all, few, b, at));
}

// --- what is left of a whole issue ------------------------------------------

/// A comment that not everybody who sees the issue may see.
pub open spec fn not_for_all(comment: JsonView) -> bool {
    comment.get("visibility"@) is Some && !(comment.get("visibility"@)->0 is Null)
}

/// The comments inside an issue: those for all, every one of them and in order,
/// with a total that tells their number where there was one.
pub open spec fn comments_for_all(container: JsonView, kept: JsonView) -> bool {
    &&& container.items_at("comments"@) matches Some(comments)
    &&& kept.items_at("comments"@) matches Some(left)
    &&& picked(comments, left, |c: JsonView| !not_for_all(c))
    &&& forall|name: Seq<char>|
        name != "comments"@ && name != "total"@ ==> #[trigger] kept.get(name) == container.get(name)
    &&& kept.get("total"@) == if container.get("total"@) is Some {
        Some(JsonView::Unsigned(left.len()))
    } else {
        None
    }
}

/// An issue without what a capability of its own governs: never a work log,
/// attachments where the caller may see those, and comments for all where the
/// caller may see those.
pub open spec fn bared(whole: JsonView, bare: JsonView, attachments: bool, comments: bool) -> bool {
    &&& forall|name: Seq<char>| name != "fields"@ ==> #[trigger] bare.get(name) == whole.get(name)
    &&& bare.get("fields"@) is Some == whole.get("fields"@) is Some
    &&& whole.get("fields"@) matches Some(JsonView::Object(_)) ==> {
        let before = whole.get("fields"@)->0;
        let after = bare.get("fields"@)->0;
        &&& after is Object
        &&& forall|name: Seq<char>|
            name != "attachment"@ && name != "worklog"@ && name != "comment"@
                ==> #[trigger] after.get(name) == before.get(name)
        &&& after.get("worklog"@) is None
        &&& after.get("attachment"@) == if attachments {
            before.get("attachment"@)
        } else {
            None
        }
        &&& !comments ==> after.get("comment"@) is None
        &&& before.get("comment"@) is None ==> after.get("comment"@) is None
        &&& comments && before.get("comment"@) is Some ==> {
            if before.get("comment"@)->0.items_at("comments"@) is Some {
                after.get("comment"@) is Some && comments_for_all(
                    before.get("comment"@)->0,
                    after.get("comment"@)->0,
                )
            } else {
                after.get("comment"@) is None
            }
        }
    }
}

proof fn lemma_comments_for_all(container: JsonView)
    requires
        container.items_at("comments"@) is Some,
    ensures
        served_comments(container) is Some,
        comments_for_all(container, served_comments(container)->0),
{
    reveal_strlit("comments");
    reveal_strlit("total");
    assert("comments"@.len() == 8);
    assert("total"@.len() == 5);
    let comments = container.items_at("comments"@)->0;
    let left = comments.filter(comment_shown(false));
    let kept = served_comments(container)->0;
    assert(kept.items_at("comments"@) == Some(left));
    lemma_filter_picks(comments, comment_shown(false));
    lemma_picked_same(comments, left, comment_shown(false), |c: JsonView| !not_for_all(c));
}

/// An issue is stripped of nothing but what a capability of its own governs and
/// the caller lacks.
pub proof fn stripping_takes_out_governed_fields_alone(access: AccessView, issue: JsonView)
    ensures
        bared(
            issue,
            ungated_issue(access, issue),
            access.allows(Capability::Attachments),
            access.allows(Capability::Comments),
        ),
{
    reveal_strlit("attachment");
    reveal_strlit("worklog");
    reveal_strlit("comment");
    assert("attachment"@.len() == 10);
    assert("worklog"@.len() == 7 && "worklog"@[0] == 'w');
    assert("comment"@.len() == 7 && "comment"@[0] == 'c');
    let bare = ungated_issue(access, issue);
    assert forall|name: Seq<char>| name != "fields"@ implies #[trigger] bare.get(name) == issue.get(
        name,
    ) by {
        stripping_keeps_the_rest(access, issue, name);
    }
    if let Some(JsonView::Object(fields)) = issue.get("fields"@) {
        let before = issue.get("fields"@)->0;
        let after = bare.get("fields"@)->0;
        assert(after == JsonView::Object(ungated(access, fields)));
        assert forall|name: Seq<char>|
            name != "attachment"@ && name != "worklog"@ && name
                != "comment"@ implies #[trigger] after.get(name) == before.get(name) by {
            stripping_keeps_the_rest(access, issue, name);
        }
        if let Some(container) = before.get("comment"@) {
            if container.items_at("comments"@) is Some {
                lemma_comments_for_all(container);
            }
        }
    }
}

proof fn lemma_bared_mentions(
    access: AccessView,
    whole: JsonView,
    custom: Seq<Seq<char>>,
    key: Seq<char>,
)
    requires
        plain_fields(custom),
    ensures
        issue_mentions(ungated_issue(access, whole), custom, key) == issue_mentions(
            whole,
            custom,
            key,
        ),
{
    let bare = ungated_issue(access, whole);
    reveal_strlit("attachment");
    reveal_strlit("worklog");
    reveal_strlit("comment");
    reveal_strlit("issuelinks");
    reveal_strlit("parent");
    reveal_strlit("subtasks");
    assert("attachment"@.len() == 10 && "attachment"@[0] == 'a');
    assert("worklog"@.len() == 7);
    assert("comment"@.len() == 7);
    assert("issuelinks"@.len() == 10 && "issuelinks"@[0] == 'i');
    assert("parent"@.len() == 6);
    assert("subtasks"@.len() == 8);
    stripping_keeps_the_rest(access, whole, "issuelinks"@);
    stripping_keeps_the_rest(access, whole, "parent"@);
    stripping_keeps_the_rest(access, whole, "subtasks"@);
    if let Some(fields) = whole.get("fields"@) {
        assert forall|i: int| 0 <= i < custom.len() implies bare.get("fields"@)->0.get(
            #[trigger] custom[i],
        ) == fields.get(custom[i]) by {
            assert(custom.contains(custom[i]));
            stripping_keeps_the_rest(access, whole, custom[i]);
        }
        let left = bare.get("fields"@)->0;
        assert forall|i: int| 0 <= i < custom.len() implies crate::keeping::declared_link(
            left,
            #[trigger] custom[i],
            key,
        ) == crate::keeping::declared_link(fields, custom[i], key) by {
            assert(left.get(custom[i]) == fields.get(custom[i]));
        }
        assert(crate::keeping::elements(left, "issuelinks"@) == crate::keeping::elements(
            fields,
            "issuelinks"@,
        ));
        assert(crate::keeping::elements(left, "subtasks"@) == crate::keeping::elements(
            fields,
            "subtasks"@,
        ));
        assert(left.text_at2("parent"@, "key"@) == fields.text_at2("parent"@, "key"@));
        assert(bare.get("fields"@) == Some(left));
        assert(crate::keeping::mentions(left, custom, key) == crate::keeping::mentions(
            fields,
            custom,
            key,
        ));
    }
}

// --- issue details ----------------------------------------------------------

/// The keys that an issue mentions, and its own.
pub open spec fn mentioned(trace: Trace, key: Seq<char>, whole: JsonView) -> Set<Seq<char>> {
    Set::new(
        |k: Seq<char>|
            k == key || issue_mentions(whole, trace.keep.policy.global.link_custom_fields, k),
    )
}

/// The issue `key` was asked for whole with step `j`, and `whole` is what came,
/// or, where nothing came, what it was classified by. Until step `to` the site
/// was asked for the issues that it mentions, up to the bound; what is served is
/// the issue with all but the references to such as the answers do not show to
/// be visible.
pub open spec fn whole_kept(
    trace: Trace,
    n: int,
    j: int,
    to: int,
    key: Seq<char>,
    judged: JsonView,
    whole: JsonView,
    bare: JsonView,
    shown: JsonView,
) -> bool {
    let custom = trace.keep.policy.global.link_custom_fields;
    &&& 0 <= j < to <= n
    &&& trace.after(j).1 is Call && asks(
        trace.keep,
        trace.creds,
        trace.after(j).1->Call_0,
        to_issue(key, Seq::empty()),
        Seq::empty(),
    )
    &&& whole == match trace.document(j) {
        Some(v) => v,
        None => judged,
    }
    &&& forall|k: Seq<char>|
        issue_mentions(whole, custom, k) && trimmed(k).len() > 0 && among_the_first(
            mentioned(trace, key, whole),
            k,
        ) ==> exists|m: int| j < m < to && asked_at(trace, m, #[trigger] trimmed(k))
    &&& keeps_the_issue(bare, shown, custom, seen(trace, j + 1, to))
}

/// The fields of a summary.
pub open spec fn of_a_summary(name: Seq<char>) -> bool {
    name == "summary"@ || name == "status"@ || name == "priority"@ || name == "issuetype"@ || name
        == "project"@ || name == "created"@ || name == "updated"@
}

/// What is shown of an issue whose summary alone may be seen: its key, its id,
/// a mark and the fields of a summary, each as it came.
pub open spec fn summarised(issue: JsonView, shown: JsonView) -> bool {
    let fields = match issue.get("fields"@) {
        Some(f) => f,
        None => JsonView::Null,
    };
    &&& shown.get("key"@) == Some(match issue.get("key"@) {
        Some(v) => v,
        None => JsonView::Null,
    })
    &&& shown.get("id"@) == Some(match issue.get("id"@) {
        Some(v) => v,
        None => JsonView::Null,
    })
    &&& shown.get("_redacted"@) == Some(JsonView::Bool(true))
    &&& shown.get("fields"@) matches Some(JsonView::Object(_))
    &&& forall|name: Seq<char>|
        of_a_summary(name) ==> #[trigger] shown.get("fields"@)->0.get(name) == fields.get(name)
    &&& forall|name: Seq<char>|
        !of_a_summary(name) ==> #[trigger] shown.get("fields"@)->0.get(name) is None
    &&& forall|name: Seq<char>|
        name != "key"@ && name != "id"@ && name != "_redacted"@ && name != "fields"@
            ==> #[trigger] shown.get(name) is None
}

pub(crate) proof fn lemma_summarised(issue: JsonView)
    ensures
        summarised(issue, summary_of(issue)),
{
    reveal_strlit("key");
    reveal_strlit("id");
    reveal_strlit("_redacted");
    reveal_strlit("fields");
    assert("key"@.len() == 3);
    assert("id"@.len() == 2);
    assert("_redacted"@.len() == 9);
    assert("fields"@.len() == 6);
    let shown = summary_of(issue);
    assert forall|name: Seq<char>| of_a_summary(name) implies #[trigger] shown.get("fields"@)->0.get(
        name,
    ) == crate::project::or_null(issue.get("fields"@)).get(name) by {
        crate::project::summary_tells_nothing_else(issue, name);
    }
    assert forall|name: Seq<char>| !of_a_summary(name) implies #[trigger] shown.get("fields"@)->0.get(
        name,
    ) is None by {
        crate::project::summary_tells_nothing_else(issue, name);
    }
    assert forall|name: Seq<char>|
        name != "key"@ && name != "id"@ && name != "_redacted"@ && name
            != "fields"@ implies #[trigger] shown.get(name) is None by {
        crate::project::summary_tells_nothing_else(issue, name);
    }
}

/// The issue `key` was asked for with step `m` and came as `judged`, and what
/// may be done with it is settled at `to`.
pub open spec fn judged_in(trace: Trace, n: int, m: int, to: int, key: Seq<char>, judged: JsonView) -> bool {
    0 <= m < to <= n && came_at(trace, m, key, judged)
}

/// What is shown for the issue `key`: the whole of it where the caller may read
/// it, less what a capability of its own governs, and else its summary.
pub open spec fn shown_for(trace: Trace, n: int, key: Seq<char>, shown: JsonView) -> bool {
    exists|m: int, to: int, judged: JsonView|
        {
            &&& #[trigger] judged_in(trace, n, m, to, key, judged)
            &&& if may(trace, to, judged, Capability::Read) {
                exists|j: int, end: int, whole: JsonView, bare: JsonView|
                    {
                        &&& #[trigger] whole_kept(
                            trace,
                            n,
                            j,
                            end,
                            key,
                            judged,
                            whole,
                            bare,
                            shown,
                        )
                        &&& bared(
                            whole,
                            bare,
                            may(trace, to, judged, Capability::Attachments),
                            may(trace, to, judged, Capability::Comments),
                        )
                    }
            } else {
                may(trace, to, judged, Capability::Summary) && summarised(judged, shown)
            }
        }
}

/// What the assessment in a run says of a key, the site's answer shows.
proof fn lemma_judged(
    trace: Trace,
    n: int,
    from: int,
    keys: Seq<Seq<char>>,
    entries: Seq<Option<(AccessView, JsonView)>>,
    place: int,
) -> (m: int)
    requires
        assessed_in_run(trace, n, from, keys, entries),
        0 <= place < keys.len(),
        visible(entries[place]),
    ensures
        ({
            let to = from + fetch_list(keys).len();
            let (access, body) = entries[place]->0;
            &&& judged_in(trace, n, m, to, keys[place], body)
            &&& forall|cap: Capability| #[trigger]
                access.allows(cap) == may(trace, to, body, cap)
        }),
{
    let wanted = fetch_list(keys);
    let to = from + wanted.len();
    let docs = trace.documents(from, wanted.len() as int);
    let key = keys[place];
    assert(entries[place] == assessment_of(
        trace.keep.policy,
        keys,
        docs,
        trace.after(to).0.caller,
        trace.time(to),
        key,
    ));
    assert(wanted.contains(key));
    let x = wanted.index_of(key);
    assert(0 <= x < wanted.len() && wanted[x] == key);
    assert(trace.after(from + x).1 == StepView::Call(
        classify_request(trace.keep, fresh(trace.call, trace.creds), wanted[x]),
    ));
    lemma_asked_at(trace, from + x, key);
    let (access, body) = entries[place]->0;
    assert(docs[x] == Some(body));
    from + x
}

proof fn lemma_whole_kept(
    trace: Trace,
    n: int,
    j: int,
    key: Seq<char>,
    access: AccessView,
    body: JsonView,
    full: JsonView,
    issue: JsonView,
) -> (whole: JsonView)
    requires
        plain_fields(trace.keep.policy.global.link_custom_fields),
        whole_served(trace, n, j, key, access, body, full, issue),
    ensures
        ({
            let named = issue_keys(trace.keep.policy, key, full);
            let end = j + 1 + fetch_list(sorted(named)).len();
            &&& whole_kept(trace, n, j, end, key, body, whole, full, issue)
            &&& bared(
                whole,
                full,
                access.allows(Capability::Attachments),
                access.allows(Capability::Comments),
            )
        }),
{
    let custom = trace.keep.policy.global.link_custom_fields;
    let named = issue_keys(trace.keep.policy, key, full);
    let wanted = fetch_list(sorted(named));
    let end = j + 1 + wanted.len();
    let whole = match trace.document(j) {
        Some(v) => v,
        None => body,
    };
    assert(full == ungated_issue(access, whole));
    stripping_takes_out_governed_fields_alone(access, whole);
    let request = trace.after(j).1->Call_0;
    assert(request.headers[0] == ("Accept"@, "application/json"@));
    // The keys that the issue mentions are those that were assessed.
    let all = mentioned(trace, key, whole);
    assert forall|k: Seq<char>| #[trigger] named.contains(k) == all.contains(k) by {
        lemma_bared_mentions(access, whole, custom, k);
        lemma_mentions(full, custom, k);
    }
    assert(named =~= all);
    lemma_mentions_finite(whole, custom);
    let others = Set::new(|k: Seq<char>| issue_mentions(whole, custom, k));
    assert(all =~= others.insert(key));
    assert forall|k: Seq<char>|
        issue_mentions(whole, custom, k) && trimmed(k).len() > 0 && among_the_first(
            all,
            k,
        ) implies exists|m: int| j < m < end && asked_at(trace, m, #[trigger] trimmed(k)) by {
        lemma_first_are_fetched(all, k);
        let x = choose|x: int| 0 <= x < wanted.len() && wanted[x] == trimmed(k);
        assert(trace.after(j + 1 + x).1 == StepView::Call(
            classify_request(trace.keep, fresh(trace.call, trace.creds), wanted[x]),
        ));
        lemma_asked_at(trace, j + 1 + x, trimmed(k));
    }
    let set = disclosed_keys(
        trace.keep.policy,
        named,
        trace.documents(j + 1, wanted.len() as int),
        trace.after(end).0.caller,
        trace.time(end),
    );
    let view = seen(trace, j + 1, end);
    // Only what the issue mentions matters to it.
    let relevant = |k: Seq<char>| view(k) && named.contains(k);
    assert forall|k: Seq<char>| #[trigger] relevant(k) implies admits(set, k) by {
        assert(asked(trace, end, j + 1, wanted));
        lemma_seen_is_disclosed(trace, j + 1, named, k);
        assert(set.contains(k) && same_ignoring_case(k, k));
    }
    scrubbing_takes_out_hidden_references_alone(full, custom, set, relevant);
    lemma_relevant(full, issue, custom, view, relevant, named);
    whole
}

/// Whether an issue keeps its references hangs on the keys that it mentions
/// alone.
pub(crate) proof fn lemma_relevant(
    whole: JsonView,
    kept: JsonView,
    custom: Seq<Seq<char>>,
    all: spec_fn(Seq<char>) -> bool,
    relevant: spec_fn(Seq<char>) -> bool,
    named: Set<Seq<char>>,
)
    requires
        keeps_the_issue(whole, kept, custom, relevant),
        forall|k: Seq<char>| #[trigger] relevant(k) == (all(k) && named.contains(k)),
        forall|k: Seq<char>|
            crate::keeping::issue_mentions(whole, custom, k) ==> #[trigger] named.contains(k),
    ensures
        keeps_the_issue(whole, kept, custom, all),
{
    if let Some(JsonView::Object(_)) = whole.get("fields"@) {
        let before = whole.get("fields"@)->0;
        let after = kept.get("fields"@)->0;
        let links = crate::keeping::elements(before, "issuelinks"@);
        let below = crate::keeping::elements(before, "subtasks"@);
        assert forall|i: int|
            0 <= i < links.len() && crate::keeping::free(
                crate::keeping::side(links[i], "inwardIssue"@),
                all,
            ) && crate::keeping::free(
                crate::keeping::side(links[i], "outwardIssue"@),
                all,
            ) implies crate::keeping::elements(after, "issuelinks"@).contains(
            #[trigger] links[i],
        ) by {
            if let Some(k) = crate::keeping::side(links[i], "inwardIssue"@) {
                assert(crate::keeping::links_to(links[i], k));
                assert(named.contains(k));
                assert(relevant(k));
            }
            if let Some(k) = crate::keeping::side(links[i], "outwardIssue"@) {
                assert(crate::keeping::links_to(links[i], k));
                assert(named.contains(k));
                assert(relevant(k));
            }
        }
        assert forall|i: int|
            0 <= i < below.len() && crate::keeping::free(
                below[i].text_at("key"@),
                all,
            ) implies crate::keeping::elements(after, "subtasks"@).contains(
            #[trigger] below[i],
        ) by {
            if let Some(k) = below[i].text_at("key"@) {
                assert(named.contains(k));
                assert(relevant(k));
            }
        }
        if let Some(k) = before.text_at2("parent"@, "key"@) {
            if all(k) {
                assert(named.contains(k));
                assert(relevant(k));
            }
        }
        assert forall|i: int|
            0 <= i < custom.len() && before.get(#[trigger] custom[i]) is Some
                && crate::keeping::free_value(before.get(custom[i])->0, all) implies after.get(
            custom[i],
        ) == before.get(custom[i]) by {
            if let JsonView::Text(s) = before.get(custom[i])->0 {
                assert(crate::keeping::declared_link(before, custom[i], trimmed(s)));
                assert(named.contains(trimmed(s)));
                assert(relevant(trimmed(s)));
            }
        }
    }
}

/// Whatever the site answers, each issue among the details is shown as its key
/// asks for it and as the policy lets the caller see it: where it may be read,
/// it is shown whole, with every reference to issues that may be seen, and each
/// of the issues that it mentions has been asked for, up to the bound on such
/// requests.
pub proof fn details_keep_what_may_be_seen(trace: Trace, n: int, i: int)
    requires
        0 <= n <= trace.inputs.len(),
        trace.call is IssueInfo,
        plain_fields(trace.keep.policy.global.link_custom_fields),
        trace.after(n).1 matches StepView::Finish(OutcomeView::Success(_)),
        0 <= i < trace.after(n).1->Finish_0->Success_0.items_at("issues"@)->0.len(),
    ensures
        trace.after(n).1->Finish_0->Success_0.items_at("issues"@) is Some,
        exists|place: int|
            0 <= place < details_keys(trace.call).len() && shown_for(
                trace,
                n,
                #[trigger] details_keys(trace.call)[place],
                trace.after(n).1->Finish_0->Success_0.items_at("issues"@)->0[i],
            ),
{
    details_show_only_visible_issues(trace, n);
    let result = trace.after(n).1->Finish_0->Success_0;
    let keys = details_keys(trace.call);
    let info = choose|info: crate::flow::InfoView| #[trigger]
        details_in_order(trace, n, keys, info) && info.next == keys.len() && result
            == crate::visibility::details_result(info);
    lemma_details_members(info);
    lemma_shown_for(trace, n, keys, info, i);
    let place = visible_places(info.entries, info.next)[i];
    assert(shown_for(trace, n, keys[place], info.issues[i]));
}

proof fn lemma_shown_for(
    trace: Trace,
    n: int,
    keys: Seq<Seq<char>>,
    info: crate::flow::InfoView,
    i: int,
)
    requires
        plain_fields(trace.keep.policy.global.link_custom_fields),
        details_in_order(trace, n, keys, info),
        0 <= i < info.issues.len(),
    ensures
        0 <= visible_places(info.entries, info.next)[i] < info.next,
        shown_for(trace, n, keys[visible_places(info.entries, info.next)[i]], info.issues[i]),
{
    let shown = info.issues[i];
    assert(detail_in_order(trace, n, keys, info, shown, i));
    let places = visible_places(info.entries, info.next);
    lemma_places(info.entries, info.next, i);
    let place = places[i];
    let key = keys[place];
    let from = choose|from: int| #[trigger] assessed_in_run(trace, n, from, keys, info.entries);
    let m = lemma_judged(trace, n, from, keys, info.entries, place);
    let to = from + fetch_list(keys).len();
    let (access, body) = info.entries[place]->0;
    assert(judged_in(trace, n, m, to, key, body));
    if access.allows(Capability::Read) {
        let (j, full) = choose|j: int, full: JsonView| #[trigger]
            whole_served(trace, n, j, key, access, body, full, shown);
        let whole = lemma_whole_kept(trace, n, j, key, access, body, full, shown);
        let named = issue_keys(trace.keep.policy, key, full);
        let end = j + 1 + fetch_list(sorted(named)).len();
        assert(whole_kept(trace, n, j, end, key, body, whole, full, shown));
    } else {
        lemma_summarised(body);
    }
}

pub(crate) proof fn lemma_details_members(info: crate::flow::InfoView)
    ensures
        crate::visibility::details_result(info).items_at("issues"@) == Some(info.issues),
        crate::visibility::details_result(info).get("restricted"@) == Some(
            crate::json::text_array(info.restricted),
        ),
{
    reveal_strlit("issues");
    reveal_strlit("restricted");
    assert("issues"@.len() == 6);
    assert("restricted"@.len() == 10);
}

/// The places of what may be shown are places of entries that may be.
proof fn lemma_places(entries: Seq<Option<(AccessView, JsonView)>>, n: int, i: int)
    requires
        0 <= i < visible_places(entries, n).len(),
    ensures
        0 <= visible_places(entries, n)[i] < n,
        visible(entries[visible_places(entries, n)[i]]),
    decreases n,
{
    if n > 0 {
        if visible(entries[n - 1]) {
            if i < visible_places(entries, n - 1).len() {
                lemma_places(entries, n - 1, i);
            }
        } else {
            lemma_places(entries, n - 1, i);
        }
    }
}

/// The keys of a call for details: each key of the call, trimmed, that is not
/// blank, in order.
pub proof fn the_keys_of_a_call_are_trimmed(keys: Seq<Seq<char>>, more: Seq<Seq<char>>, key: Seq<char>)
    ensures
        cleaned(Seq::empty()) == Seq::<Seq<char>>::empty(),
        cleaned(seq![key]) == if trimmed(key).len() == 0 {
            Seq::empty()
        } else {
            seq![trimmed(key)]
        },
        cleaned(keys + more) == cleaned(keys) + cleaned(more),
    decreases more.len(),
{
    reveal_with_fuel(cleaned, 2);
    assert(seq![key].drop_last() =~= Seq::<Seq<char>>::empty());
    assert(seq![key].last() == key);
    if trimmed(key).len() > 0 {
        assert(cleaned(seq![key]) =~= seq![trimmed(key)]);
    }
    if more.len() == 0 {
        assert(keys + more =~= keys);
        assert(cleaned(keys) + cleaned(more) =~= cleaned(keys));
    } else {
        the_keys_of_a_call_are_trimmed(keys, more.drop_last(), key);
        assert((keys + more).drop_last() =~= keys + more.drop_last());
        assert((keys + more).last() == more.last());
        assert(cleaned(keys + more) =~= cleaned(keys) + cleaned(more));
    }
}

proof fn lemma_cleaned_holds(keys: Seq<Seq<char>>, q: int)
    requires
        0 <= q < keys.len(),
        trimmed(keys[q]).len() > 0,
    ensures
        cleaned(keys).contains(trimmed(keys[q])),
    decreases keys.len(),
{
    let earlier = cleaned(keys.drop_last());
    if q == keys.len() - 1 {
        assert(cleaned(keys)[earlier.len() as int] == trimmed(keys[q]));
    } else {
        lemma_cleaned_holds(keys.drop_last(), q);
        let x = choose|x: int| 0 <= x < earlier.len() && earlier[x] == trimmed(keys[q]);
        assert(cleaned(keys)[x] == trimmed(keys[q]));
    }
}

proof fn lemma_place_of(entries: Seq<Option<(AccessView, JsonView)>>, n: int, place: int)
    requires
        0 <= place < n,
        visible(entries[place]),
    ensures
        visible_places(entries, n).contains(place),
    decreases n,
{
    let earlier = visible_places(entries, n - 1);
    if place == n - 1 {
        assert(visible_places(entries, n)[earlier.len() as int] == place);
    } else {
        lemma_place_of(entries, n - 1, place);
        let x = choose|x: int| 0 <= x < earlier.len() && earlier[x] == place;
        assert(visible_places(entries, n)[x] == place);
    }
}

proof fn lemma_restricted_of(
    keys: Seq<Seq<char>>,
    entries: Seq<Option<(AccessView, JsonView)>>,
    n: int,
    place: int,
)
    requires
        0 <= place < n,
        !visible(entries[place]),
    ensures
        invisible_keys(keys, entries, n).contains(keys[place]),
    decreases n,
{
    let earlier = invisible_keys(keys, entries, n - 1);
    if place == n - 1 {
        assert(invisible_keys(keys, entries, n)[earlier.len() as int] == keys[place]);
    } else {
        lemma_restricted_of(keys, entries, n - 1, place);
        let x = choose|x: int| 0 <= x < earlier.len() && earlier[x] == keys[place];
        assert(invisible_keys(keys, entries, n)[x] == keys[place]);
    }
}

/// No key of a call for details goes missing: for each there is an issue among
/// those that are shown, or the key is listed as restricted. Together these are
/// as many as the call has keys.
pub proof fn details_account_for_every_key(trace: Trace, n: int, q: int)
    requires
        0 <= n <= trace.inputs.len(),
        trace.call is IssueInfo,
        plain_fields(trace.keep.policy.global.link_custom_fields),
        trace.after(n).1 matches StepView::Finish(OutcomeView::Success(_)),
        0 <= q < trace.call->IssueInfo_0.keys@.len(),
        trimmed(trace.call->IssueInfo_0.keys@[q]@).len() > 0,
    ensures
        ({
            let result = trace.after(n).1->Finish_0->Success_0;
            let key = trimmed(trace.call->IssueInfo_0.keys@[q]@);
            let issues = result.items_at("issues"@);
            let restricted = result.items_at("restricted"@);
            &&& issues is Some && restricted is Some
            &&& issues->0.len() + restricted->0.len() == details_keys(trace.call).len()
            &&& restricted->0.contains(JsonView::Text(key)) || exists|i: int|
                0 <= i < issues->0.len() && shown_for(trace, n, key, #[trigger] issues->0[i])
        }),
{
    details_show_only_visible_issues(trace, n);
    let result = trace.after(n).1->Finish_0->Success_0;
    let all = crate::keyset::texts(trace.call->IssueInfo_0.keys@);
    let keys = details_keys(trace.call);
    let info = choose|info: crate::flow::InfoView| #[trigger]
        details_in_order(trace, n, keys, info) && info.next == keys.len() && result
            == crate::visibility::details_result(info);
    lemma_details_members(info);
    lemma_cleaned_holds(all, q);
    let key = trimmed(all[q]);
    let place = choose|place: int| 0 <= place < keys.len() && keys[place] == key;
    let restricted = result.items_at("restricted"@)->0;
    if visible(info.entries[place]) {
        lemma_place_of(info.entries, info.next, place);
        let places = visible_places(info.entries, info.next);
        let i = choose|i: int| 0 <= i < places.len() && places[i] == place;
        assert(detail_in_order(trace, n, keys, info, info.issues[i], i));
        lemma_shown_for(trace, n, keys, info, i);
        assert(shown_for(trace, n, key, result.items_at("issues"@)->0[i]));
    } else {
        lemma_restricted_of(keys, info.entries, info.next, place);
        let x = choose|x: int| 0 <= x < info.restricted.len() && info.restricted[x] == key;
        assert(restricted[x] == JsonView::Text(key));
    }
}

/// A key is listed as restricted only where the site did not show an issue of
/// which the caller may see anything.
pub proof fn only_what_may_not_be_seen_is_restricted(trace: Trace, n: int, r: int)
    requires
        0 <= n <= trace.inputs.len(),
        trace.call is IssueInfo,
        trace.after(n).1 matches StepView::Finish(OutcomeView::Success(_)),
        0 <= r < trace.after(n).1->Finish_0->Success_0.items_at("restricted"@)->0.len(),
    ensures
        ({
            let listed = trace.after(n).1->Finish_0->Success_0.items_at("restricted"@)->0[r];
            &&& listed is Text
            &&& kept_back(trace, n, listed->Text_0)
        }),
{
    details_show_only_visible_issues(trace, n);
    let result = trace.after(n).1->Finish_0->Success_0;
    let keys = details_keys(trace.call);
    let info = choose|info: crate::flow::InfoView| #[trigger]
        details_in_order(trace, n, keys, info) && info.next == keys.len() && result
            == crate::visibility::details_result(info);
    lemma_details_members(info);
    assert(result.items_at("restricted"@)->0[r] == JsonView::Text(info.restricted[r]));
    lemma_few_keys(trace, n);
    lemma_restricted_listed(trace, n, info, r);
}

proof fn lemma_restricted_listed(trace: Trace, n: int, info: crate::flow::InfoView, r: int)
    requires
        details_in_order(trace, n, details_keys(trace.call), info),
        info.next == info.keys.len() <= 25,
        0 <= r < info.restricted.len(),
    ensures
        kept_back(trace, n, info.restricted[r]),
{
    reveal(kept_back);
    let keys = details_keys(trace.call);
    lemma_invisible_at(keys, info.entries, info.next, r);
    let key = info.restricted[r];
    let place = choose|place: int|
        0 <= place < keys.len() && #[trigger] keys[place] == key && !visible(info.entries[place]);
    let from = choose|from: int| #[trigger] assessed_in_run(trace, n, from, keys, info.entries);
    lemma_cleaned_tight(crate::keyset::texts(trace.call->IssueInfo_0.keys@), place);
    lemma_not_shown(trace, n, keys, info.entries, place, from);
    assert(not_shown_in(trace, from, from + fetch_list(keys).len(), key));
}

proof fn lemma_not_shown(
    trace: Trace,
    n: int,
    keys: Seq<Seq<char>>,
    entries: Seq<Option<(AccessView, JsonView)>>,
    place: int,
    from: int,
)
    requires
        assessed_in_run(trace, n, from, keys, entries),
        0 <= place < keys.len() <= 25,
        keys[place].len() > 0,
        trimmed(keys[place]) == keys[place],
        !visible(entries[place]),
    ensures
        not_shown_in(trace, from, from + fetch_list(keys).len(), keys[place]),
        0 <= from,
        from + fetch_list(keys).len() <= n,
{
    let key = keys[place];
    let wanted = fetch_list(keys);
    let to = from + wanted.len();
    let docs = trace.documents(from, wanted.len() as int);
    assert forall|m: int, issue: JsonView|
        from <= m < to && !(issue is Null) && #[trigger] came_at(
            trace,
            m,
            key,
            issue,
        ) implies !may(trace, to, issue, Capability::Summary) by {
        let x = m - from;
        assert(trace.after(from + x).1 == StepView::Call(
            classify_request(trace.keep, fresh(trace.call, trace.creds), wanted[x]),
        ));
        lemma_one_key(trace, m, key, wanted[x]);
        lemma_fetch_list(keys, x);
        assert(docs[x] == Some(issue));
        assert(entries[place] == assessment_of(
            trace.keep.policy,
            keys,
            docs,
            trace.after(to).0.caller,
            trace.time(to),
            key,
        ));
    }
    lemma_all_fetched(keys, place);
    let x = choose|x: int| 0 <= x < wanted.len() && wanted[x] == key;
    assert(trace.after(from + x).1 == StepView::Call(
        classify_request(trace.keep, fresh(trace.call, trace.creds), wanted[x]),
    ));
    lemma_asked_at(trace, from + x, key);
}

/// With more keys than one call may have, a run comes to nothing.
pub(crate) proof fn lemma_few_keys(trace: Trace, n: int)
    requires
        0 <= n,
        trace.call is IssueInfo,
    ensures
        details_keys(trace.call).len() > 25 ==> !(trace.after(n).1 matches StepView::Finish(
            OutcomeView::Success(_),
        )) && (trace.after(n).0.stage is Identity || trace.after(n).0.stage is Done)
            && trace.after(n).0.call == trace.call,
    decreases n,
{
    if n > 0 {
        lemma_few_keys(trace, n - 1);
    }
}

proof fn lemma_cleaned_tight(keys: Seq<Seq<char>>, i: int)
    requires
        0 <= i < cleaned(keys).len(),
    ensures
        cleaned(keys)[i].len() > 0,
        trimmed(cleaned(keys)[i]) == cleaned(keys)[i],
    decreases keys.len(),
{
    let earlier = cleaned(keys.drop_last());
    if i < earlier.len() {
        lemma_cleaned_tight(keys.drop_last(), i);
    } else {
        crate::wording::trimming_once_is_enough(keys.last());
    }
}

proof fn lemma_all_fetched(keys: Seq<Seq<char>>, i: int)
    requires
        0 <= i < keys.len() <= 25,
        trimmed(keys[i]).len() > 0,
    ensures
        fetch_list(keys).contains(trimmed(keys[i])),
    decreases keys.len(),
{
    crate::keeping::lemma_distinct_len(keys);
    let rest = keys.drop_last();
    crate::keeping::lemma_distinct_len(rest);
    let earlier = crate::guard::distinct_keys(rest);
    let all = crate::guard::distinct_keys(keys);
    if i < rest.len() {
        lemma_all_fetched(rest, i);
        let x = choose|x: int| 0 <= x < earlier.len() && earlier[x] == trimmed(keys[i]);
        assert(all[x] == trimmed(keys[i]));
    } else if !earlier.contains(trimmed(keys[i])) {
        assert(all[earlier.len() as int] == trimmed(keys[i]));
    }
}

/// Between two points of a run the site was asked for the issue `key`, and
/// nothing came of which the caller may see anything.
pub open spec fn not_shown_in(trace: Trace, from: int, to: int, key: Seq<char>) -> bool {
    &&& exists|m: int| from <= m < to && #[trigger] asked_at(trace, m, key)
    &&& forall|m: int, issue: JsonView|
        from <= m < to && !(issue is Null) && #[trigger] came_at(trace, m, key, issue) ==> !may(
            trace,
            to,
            issue,
            Capability::Summary,
        )
}

/// At some point of a run the site was asked for the issue `key`, and nothing
/// came of which the caller may see anything.
#[verifier::opaque]
pub open spec fn kept_back(trace: Trace, n: int, key: Seq<char>) -> bool {
    exists|from: int, to: int| #[trigger]
        not_shown_in(trace, from, to, key) && 0 <= from <= to <= n
}

proof fn lemma_invisible_at(
    keys: Seq<Seq<char>>,
    entries: Seq<Option<(AccessView, JsonView)>>,
    n: int,
    r: int,
)
    requires
        0 <= r < invisible_keys(keys, entries, n).len(),
    ensures
        exists|place: int|
            0 <= place < n && #[trigger] keys[place] == invisible_keys(keys, entries, n)[r]
                && !visible(entries[place]),
    decreases n,
{
    if n > 0 {
        if visible(entries[n - 1]) {
            lemma_invisible_at(keys, entries, n - 1, r);
            let place = choose|place: int|
                0 <= place < n - 1 && #[trigger] keys[place] == invisible_keys(
                    keys,
                    entries,
                    n - 1,
                )[r] && !visible(entries[place]);
            assert(keys[place] == invisible_keys(keys, entries, n)[r]);
        } else if r < invisible_keys(keys, entries, n - 1).len() {
            lemma_invisible_at(keys, entries, n - 1, r);
            let place = choose|place: int|
                0 <= place < n - 1 && #[trigger] keys[place] == invisible_keys(
                    keys,
                    entries,
                    n - 1,
                )[r] && !visible(entries[place]);
            assert(keys[place] == invisible_keys(keys, entries, n)[r]);
        } else {
            assert(keys[n - 1] == invisible_keys(keys, entries, n)[r]);
        }
    }
}

} // verus!
