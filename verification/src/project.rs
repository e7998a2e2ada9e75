//! What of an issue an access lets the client see.

use vstd::prelude::*;
use vstd::string::*;

use crate::guard::Guard;
use crate::json::{items_view, Json, JsonView, Members};
use crate::policy::{Access, AccessView, Capability};

verus! {

// --- the redacted summary ---------------------------------------------------

/// The fields that the summary-only view keeps.
pub open spec fn summary_field(name: Seq<char>) -> bool {
    ||| name == "summary"@
    ||| name == "status"@
    ||| name == "priority"@
    ||| name == "issuetype"@
    ||| name == "project"@
    ||| name == "created"@
    ||| name == "updated"@
}

/// A member, or `null` where there is none.
pub open spec fn or_null(value: Option<JsonView>) -> JsonView {
    match value {
        Some(v) => v,
        None => JsonView::Null,
    }
}

/// The summary-only view of an issue: its key, its id, the mark that it is
/// redacted, and of its fields only those of [`summary_field`].
pub open spec fn summary_of(issue: JsonView) -> JsonView {
    let fields = or_null(issue.get("fields"@));
    JsonView::Object(
        Map::<Seq<char>, JsonView>::empty().insert("key"@, or_null(issue.get("key"@))).insert(
            "id"@,
            or_null(issue.get("id"@)),
        ).insert("_redacted"@, JsonView::Bool(true)).insert(
            "fields"@,
            JsonView::Object(
                Map::new(
                    |name: Seq<char>| summary_field(name) && fields.get(name) is Some,
                    |name: Seq<char>| fields.get(name)->0,
                ),
            ),
        ),
    )
}

/// What an access lets the client see of an issue: all, the summary, or
/// nothing.
pub open spec fn projected(access: AccessView, issue: JsonView) -> Option<JsonView> {
    if access.allows(Capability::Read) {
        Some(issue)
    } else if access.allows(Capability::Summary) {
        Some(summary_of(issue))
    } else {
        None
    }
}

/// The member of a document, null where there is none.
pub(crate) fn member_or_null(value: &Json, name: &str) -> (res: Json)
    ensures
        res@ == or_null(value@.get(name@)),
{
    match value.get(name) {
        Some(v) => v.clone(),
        None => Json::Null,
    }
}

fn keep_field(out: &mut Members, fields: &Json, name: &str)
    ensures
        final(out)@ == match fields@.get(name@) {
            Some(v) => old(out)@.insert(name@, v),
            None => old(out)@,
        },
{
    if let Some(v) = fields.get(name) {
        out.insert(name, v.clone());
    }
}

// --- comments ---------------------------------------------------------------

/// A comment whose visibility is restricted.
pub open spec fn restricted(comment: JsonView) -> bool {
    match comment.get("visibility"@) {
        Some(v) => !(v is Null),
        None => false,
    }
}

/// A comment that may be served: any where `allow`, an unrestricted one else.
pub open spec fn comment_shown(allow: bool) -> spec_fn(JsonView) -> bool {
    |comment: JsonView| allow || !restricted(comment)
}

/// Keeps the comments that may be served.
fn keep_comments(comments: &Vec<Json>, allow: bool) -> (res: Vec<Json>)
    ensures
        items_view(res@) == items_view(comments@).filter(comment_shown(allow)),
{
    let ghost views = items_view(comments@);
    let ghost keep = comment_shown(allow);
    let mut kept: Vec<Json> = Vec::new();
    let mut i: usize = 0;
    proof {
        reveal(Seq::filter);
        assert(views.take(0) =~= Seq::empty());
        assert(items_view(kept@) =~= views.take(0).filter(keep));
    }
    while i < comments.len()
        invariant
            i <= comments.len(),
            views == items_view(comments@),
            keep == comment_shown(allow),
            items_view(kept@) == views.take(i as int).filter(keep),
        decreases comments.len() - i,
    {
        let ghost held = items_view(kept@);
        let comment = &comments[i];
        assert(comment@ == views[i as int]);
        if allow || !Guard::comment_is_restricted(comment) {
            kept.push(comment.clone());
        }
        proof {
            let b = views.take(i + 1);
            assert(b.drop_last() =~= views.take(i as int));
            assert(b.last() == views[i as int]);
            reveal(Seq::filter);
            if keep(views[i as int]) {
                assert(items_view(kept@) =~= held.push(views[i as int]));
            } else {
                assert(items_view(kept@) =~= held);
            }
        }
        i += 1;
    }
    assert(views.take(comments@.len() as int) =~= views);
    kept
}

// --- gated field families ---------------------------------------------------

/// The comment container with its restricted comments taken out and its total
/// telling what is left; `None` where it has no list of comments.
pub open spec fn served_comments(container: JsonView) -> Option<JsonView> {
    match (container, container.items_at("comments"@)) {
        (JsonView::Object(m), Some(comments)) => {
            let kept = comments.filter(comment_shown(false));
            let listed = m.insert("comments"@, JsonView::Array(kept));
            Some(
                JsonView::Object(
                    if listed.dom().contains("total"@) {
                        listed.insert("total"@, JsonView::Unsigned(kept.len()))
                    } else {
                        listed
                    },
                ),
            )
        },
        _ => None,
    }
}

/// The fields of an issue without the families that the access does not grant.
/// Attachments and comments have a capability of their own; work logs have
/// none and are never served.
pub open spec fn ungated(
    access: AccessView,
    fields: Map<Seq<char>, JsonView>,
) -> Map<Seq<char>, JsonView> {
    let attachments = if access.allows(Capability::Attachments) {
        fields
    } else {
        fields.remove("attachment"@)
    };
    let rest = attachments.remove("worklog"@);
    if !rest.dom().contains("comment"@) {
        rest
    } else if !access.allows(Capability::Comments) {
        rest.remove("comment"@)
    } else {
        match served_comments(rest["comment"@]) {
            Some(container) => rest.insert("comment"@, container),
            None => rest.remove("comment"@),
        }
    }
}

/// An issue without the field families that the access does not grant.
pub open spec fn ungated_issue(access: AccessView, issue: JsonView) -> JsonView {
    match issue {
        JsonView::Object(m) => match issue.get("fields"@) {
            Some(JsonView::Object(fields)) => JsonView::Object(
                m.insert("fields"@, JsonView::Object(ungated(access, fields))),
            ),
            _ => issue,
        },
        _ => issue,
    }
}

/// The comment container as it may be served.
fn serve_comments(container: &Json) -> (res: Option<Json>)
    ensures
        match res {
            Some(v) => served_comments(container@) == Some(v@),
            None => served_comments(container@) is None,
        },
{
    let members = match container {
        Json::Object(members) => members,
        _ => return None,
    };
    let kept = match members.get("comments") {
        Some(Json::Array(comments)) => keep_comments(comments, false),
        _ => return None,
    };
    let left: u64 = kept.len() as u64;
    let mut out = members.clone();
    out.insert("comments", Json::Array(kept));
    if out.contains_key("total") {
        out.insert("total", Json::Unsigned(left));
    }
    Some(Json::Object(out))
}

impl Guard {
    /// The summary-only view of an issue.
    pub fn summary_view(issue: &Json) -> (res: Json)
        ensures
            res@ == summary_of(issue@),
    {
        let fields = member_or_null(issue, "fields");
        let mut kept = Members::new();
        keep_field(&mut kept, &fields, "summary");
        keep_field(&mut kept, &fields, "status");
        keep_field(&mut kept, &fields, "priority");
        keep_field(&mut kept, &fields, "issuetype");
        keep_field(&mut kept, &fields, "project");
        keep_field(&mut kept, &fields, "created");
        keep_field(&mut kept, &fields, "updated");
        proof {
            let f = or_null(issue@.get("fields"@));
            assert(kept@ =~= Map::new(
                |name: Seq<char>| summary_field(name) && f.get(name) is Some,
                |name: Seq<char>| f.get(name)->0,
            ));
        }
        let mut out = Members::new();
        out.insert("key", member_or_null(issue, "key"));
        out.insert("id", member_or_null(issue, "id"));
        out.insert("_redacted", Json::Bool(true));
        out.insert("fields", Json::Object(kept));
        Json::Object(out)
    }

    /// What an access lets the client see of an issue.
    pub fn project_issue(access: &Access, issue: &Json) -> (res: Option<Json>)
        ensures
            match res {
                Some(v) => projected(access@, issue@) == Some(v@),
                None => projected(access@, issue@) is None,
            },
    {
        if access.allows(Capability::Read) {
            Some(issue.clone())
        } else if access.allows(Capability::Summary) {
            Some(Guard::summary_view(issue))
        } else {
            None
        }
    }

    /// Whether the visibility of a comment is restricted.
    pub fn comment_is_restricted(comment: &Json) -> (res: bool)
        ensures
            res == restricted(comment@),
    {
        match comment.get("visibility") {
            Some(v) => !v.is_null(),
            None => false,
        }
    }

    /// The comments that may be served: restricted ones only where both the
    /// policy and the call opt in.
    pub fn filter_comments(&self, comments: &Vec<Json>, include_restricted: bool) -> (res: Vec<Json>)
        ensures
            items_view(res@) == items_view(comments@).filter(
                comment_shown(
                    self.policy.global.allow_restricted_comments && include_restricted,
                ),
            ),
    {
        keep_comments(comments, self.policy.global.allow_restricted_comments && include_restricted)
    }

    /// Takes the field families out of a served issue that the access does not
    /// grant.
    pub fn scrub_gated_fields(access: &Access, issue: Json) -> (res: Json)
        ensures
            res@ == ungated_issue(access@, issue@),
    {
        let mut members = match issue {
            Json::Object(members) => members,
            other => return other,
        };
        let mut fields = match members.get("fields") {
            Some(Json::Object(fields)) => fields.clone(),
            _ => return Json::Object(members),
        };
        if !access.allows(Capability::Attachments) {
            fields.remove("attachment");
        }
        fields.remove("worklog");
        let served = match fields.get("comment") {
            Some(container) => if access.allows(Capability::Comments) {
                Some(serve_comments(container))
            } else {
                Some(None)
            },
            None => None,
        };
        match served {
            Some(Some(container)) => fields.insert("comment", container),
            Some(None) => fields.remove("comment"),
            None => {},
        }
        members.insert("fields", Json::Object(fields));
        Json::Object(members)
    }
}

// --- laws -------------------------------------------------------------------

/// A served issue never carries a work log, carries attachments only where the
/// access grants them, and comments only where it grants those.
pub proof fn gated_families_are_stripped(access: AccessView, issue: JsonView)
    requires
        issue.get("fields"@) matches Some(JsonView::Object(_)),
    ensures
        ({
            let fields = ungated_issue(access, issue).get("fields"@)->0;
            &&& fields.get("worklog"@) is None
            &&& !access.allows(Capability::Attachments) ==> fields.get("attachment"@) is None
            &&& !access.allows(Capability::Comments) ==> fields.get("comment"@) is None
        }),
{
    lemma_family_names();
}

/// The comments that are served inside an issue are never restricted, and the
/// total beside them tells their number, so that no count betrays a removal.
pub proof fn embedded_comments_are_unrestricted(access: AccessView, issue: JsonView, i: int)
    requires
        issue.get("fields"@) matches Some(JsonView::Object(_)),
        ungated_issue(access, issue).get("fields"@)->0.get("comment"@) is Some,
    ensures
        ({
            let container = ungated_issue(access, issue).get("fields"@)->0.get("comment"@)->0;
            &&& container.items_at("comments"@) is Some
            &&& 0 <= i < container.items_at("comments"@)->0.len() ==> !restricted(
                container.items_at("comments"@)->0[i],
            )
            &&& container.get("total"@) matches Some(n) ==> n == JsonView::Unsigned(
                container.items_at("comments"@)->0.len(),
            )
        }),
{
    lemma_family_names();
    let fields = issue.get("fields"@)->0->Object_0;
    let comments = fields["comment"@].items_at("comments"@)->0;
    if 0 <= i < comments.filter(comment_shown(false)).len() {
        comments.lemma_filter_pred(comment_shown(false), i);
    }
}

/// Stripping the gated families changes nothing else in an issue.
pub proof fn stripping_keeps_the_rest(access: AccessView, issue: JsonView, name: Seq<char>)
    ensures
        name != "fields"@ ==> ungated_issue(access, issue).get(name) == issue.get(name),
        issue.get("fields"@) matches Some(fields) ==> name != "attachment"@ && name != "worklog"@
            && name != "comment"@ ==> ungated_issue(access, issue).get("fields"@)->0.get(name)
            == fields.get(name),
{
}

proof fn lemma_family_names()
    ensures
        "attachment"@ != "worklog"@,
        "attachment"@ != "comment"@,
        "worklog"@ != "comment"@,
        "comments"@ != "total"@,
{
    reveal_strlit("attachment");
    reveal_strlit("worklog");
    reveal_strlit("comment");
    reveal_strlit("comments");
    reveal_strlit("total");
    assert("attachment"@.len() == 10 && "worklog"@.len() == 7 && "worklog"@[0] == 'w');
    assert("comment"@.len() == 7 && "comment"@[0] == 'c');
    assert("comments"@.len() == 8 && "total"@.len() == 5);
}

/// Restricted comments are served only under both opt-ins, the policy's and
/// the call's.
pub proof fn restricted_comments_need_both_opt_ins(
    comments: Seq<JsonView>,
    policy: bool,
    call: bool,
    i: int,
)
    requires
        0 <= i < comments.filter(comment_shown(policy && call)).len(),
    ensures
        restricted(comments.filter(comment_shown(policy && call))[i]) ==> policy && call,
{
    comments.lemma_filter_pred(comment_shown(policy && call), i);
}

/// The summary-only view tells of the fields nothing but those it keeps, and
/// those as they are.
pub proof fn summary_tells_nothing_else(issue: JsonView, name: Seq<char>)
    ensures
        summary_of(issue).get("fields"@)->0.get(name) == if summary_field(name) {
            or_null(issue.get("fields"@)).get(name)
        } else {
            None
        },
        summary_of(issue).get(name) is Some ==> name == "key"@ || name == "id"@ || name
            == "_redacted"@ || name == "fields"@,
{
}

} // verus!
