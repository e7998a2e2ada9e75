//! How the site's replies are read.

use vstd::prelude::*;
use vstd::string::*;

use crate::flow::{event_of, EventView, RunView};
use crate::json::{json_parse, json_text, JsonView};
use crate::reply::{
    account_id_of, change_of, data_of, document_of, endpoint_missing, watcher_of, ErrorView,
    ReplyView,
};
use crate::text::{numeral, trimmed};

verus! {

/// The status says that the request was met.
pub open spec fn met(status: int) -> bool {
    status / 100 == 2
}

/// What a response is read as: the document in it where the request was met,
/// `null` where there is to be none, and an error with the status otherwise, or
/// where there is no document in it.
pub proof fn a_response_is_read_by_its_status(status: int, body: Seq<char>)
    requires
        0 <= status,
    ensures
        ({
            let read = document_of(ReplyView::Answer { status, body });
            if status == 204 {
                read == Ok::<JsonView, ErrorView>(JsonView::Null)
            } else if met(status) {
                match json_parse(body) {
                    Some(document) => read == Ok::<JsonView, ErrorView>(document),
                    None => read is Err,
                }
            } else {
                read matches Err(ErrorView::Status { status: told, .. }) && told == status
            }
        }),
        met(status) || change_of(ReplyView::Answer { status, body }) is Err,
        met(status) && (status == 204 || trimmed(body).len() == 0 || json_parse(body) is Some)
            ==> change_of(ReplyView::Answer { status, body }) is Ok,
        watcher_of(ReplyView::Answer { status, body }) is Ok <==> met(status),
{
}

/// Where no response came, or a download was broken off, there is an error that
/// tells why and nothing is taken for an answer.
pub proof fn no_response_is_no_answer(text: Seq<char>, e: ErrorView, bytes: Seq<u8>)
    ensures
        document_of(ReplyView::Failed(text)) == Err::<JsonView, ErrorView>(
            ErrorView::Transport(text),
        ),
        change_of(ReplyView::Failed(text)) is Err,
        watcher_of(ReplyView::Failed(text)) is Err,
        data_of(ReplyView::Failed(text)) is Err,
        data_of(ReplyView::Aborted(e)) == Err::<Seq<u8>, ErrorView>(e),
        document_of(ReplyView::Aborted(e)) == Err::<JsonView, ErrorView>(e),
        data_of(ReplyView::Data(bytes)) == Ok::<Seq<u8>, ErrorView>(bytes),
        document_of(ReplyView::Data(bytes)) is Err,
{
}

/// The first of the site's error messages, if it sent any that is a text.
pub open spec fn first_message(body: JsonView) -> Option<Seq<char>> {
    match body.items_at("errorMessages"@) {
        Some(items) => if items.len() > 0 {
            items[0].text()
        } else {
            None
        },
        None => None,
    }
}

/// An error tells the status, and what the site says of it: the first of its
/// error messages, or else its message, or else its errors.
pub proof fn an_error_tells_what_the_site_says(status: int, body: Seq<char>, document: JsonView)
    requires
        0 <= status,
        !met(status),
        json_parse(body) == Some(document),
    ensures
        ({
            let error = document_of(ReplyView::Answer { status, body })->Err_0;
            let message = if first_message(document) is Some {
                first_message(document)->0
            } else if document.text_at("message"@) is Some {
                document.text_at("message"@)->0
            } else if document.get("errors"@) is Some {
                json_text(document.get("errors"@)->0)
            } else {
                "unknown error"@
            };
            &&& error.text() == "jira error (HTTP "@ + numeral(status as nat) + "): "@ + message
            &&& endpoint_missing(document_of(ReplyView::Answer { status, body })) <==> status
                == 404
        }),
{
}

/// A change without a result is read by whether it went through, a download by
/// its bytes, and everything else by its document.
pub proof fn a_reply_is_read_as_what_the_call_waits_for(run: RunView, reply: ReplyView)
    ensures
        run.stage is Download ==> event_of(run, reply) == EventView::Data(data_of(reply)),
        run.stage is Main && (run.call is TransitionIssue || run.call is AssignIssue
            || run.call is UpdateIssueFields || run.call is LinkIssues) ==> event_of(run, reply)
            == EventView::Change(change_of(reply)),
        run.stage is Main && run.call is AddWatcher ==> event_of(run, reply) == EventView::Change(
            watcher_of(reply),
        ),
        !(run.stage is Download) && !(run.stage is Main) ==> event_of(run, reply)
            == EventView::Document(document_of(reply)),
        run.stage is Main && !(run.call is TransitionIssue) && !(run.call is AssignIssue)
            && !(run.call is UpdateIssueFields) && !(run.call is LinkIssues)
            && !(run.call is AddWatcher) ==> event_of(run, reply) == EventView::Document(
            document_of(reply),
        ),
{
}

/// The account of the credential holder tells who that is exactly where it has
/// an account id that is not blank.
pub proof fn an_account_has_an_id(account: JsonView, id: Seq<char>)
    ensures
        account_id_of(Ok::<JsonView, ErrorView>(account)) == Ok::<Seq<char>, ErrorView>(id)
            <==> account.text_at("accountId"@) == Some(id) && trimmed(id).len() > 0,
{
}

} // verus!
