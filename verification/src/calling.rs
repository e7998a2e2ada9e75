//! What each request of the client carries, for all that it can be given.

use vstd::prelude::*;
use vstd::string::*;

use crate::client::{
    changelog_request, comment_request, comments_request, create_request, escaped,
    filter_request, issue_request, link_request, offset_search_request, search_request,
    transition_request, transitions_request, update_request, upload_request, watcher_request,
    ApiVersion, AuthMode, AuthorizationView, ClientView, Credentials, Method, PayloadView,
    QueryView, RequestView, Transfer,
};
use crate::decisions::holds;
use crate::json::JsonView;
use crate::reply::{
    content_address, download_request, origin_within, url_origin, url_parse, url_read, UrlView,
};
use crate::requests::{holds2, lacks, lemma_says, says, texts_list};
use crate::text::{begins_with, numeral};

verus! {

/// A request goes to a path of the site's REST API, in the version of the
/// client, with the credentials, and wants a JSON document back.
pub open spec fn reaches(
    client: ClientView,
    creds: Credentials,
    request: RequestView,
    method: Method,
    path: Seq<char>,
) -> bool {
    &&& request.method == method
    &&& request.url == client.base_url + "/rest/api/"@ + (match client.api_version {
        ApiVersion::V2 => "2"@,
        ApiVersion::V3 => "3"@,
    }) + path
    &&& request.headers.contains(("Accept"@, "application/json"@))
    &&& request.transfer == Transfer::Text
    &&& vouched(client, creds, request)
}

/// A request carries the credentials as the client authenticates.
pub open spec fn vouched(client: ClientView, creds: Credentials, request: RequestView) -> bool {
    match client.auth_mode {
        AuthMode::Basic => request.authorization == (AuthorizationView::Basic {
            email: creds.email@,
            token: creds.token@,
        }),
        AuthMode::Bearer => request.authorization == AuthorizationView::Header(
            "Bearer "@ + creds.token@,
        ),
    }
}

proof fn lemma_address(client: ClientView, path: Seq<char>)
    ensures
        crate::client::api_base(client) + path =~= client.base_url + "/rest/api/"@ + (
        match client.api_version {
            ApiVersion::V2 => "2"@,
            ApiVersion::V3 => "3"@,
        }) + path,
{
}

/// A request to read brings nothing, and asks for the issue, the filter or the
/// page that it is given: with the fields that are wanted, where some are, and
/// from the entry on that the page begins with.
pub proof fn a_request_to_read_asks_for_what_is_given(
    client: ClientView,
    creds: Credentials,
    key: Seq<char>,
    fields: Option<Seq<char>>,
    start: nat,
    size: nat,
)
    ensures
        ({
            let issue = issue_request(client, creds, key, fields);
            &&& reaches(client, creds, issue, Method::Get, "/issue/"@ + escaped(key))
            &&& issue.payload is Nothing
            &&& fields is None ==> issue.query.len() == 0
            &&& fields is Some ==> issue.query == seq![("fields"@, fields->0)]
        }),
        ({
            let history = changelog_request(client, creds, key, start as int, size as int);
            &&& reaches(
                client,
                creds,
                history,
                Method::Get,
                "/issue/"@ + escaped(key) + "/changelog"@,
            )
            &&& history.payload is Nothing
            &&& history.query.len() == 2
            &&& history.query.contains(("startAt"@, numeral(start)))
            &&& history.query.contains(("maxResults"@, numeral(size)))
        }),
        ({
            let comments = comments_request(client, creds, key, start as int, size as int);
            &&& reaches(
                client,
                creds,
                comments,
                Method::Get,
                "/issue/"@ + escaped(key) + "/comment"@,
            )
            &&& comments.payload is Nothing
            &&& comments.query.len() == 3
            &&& comments.query.contains(("startAt"@, numeral(start)))
            &&& comments.query.contains(("maxResults"@, numeral(size)))
            &&& comments.query.contains(("orderBy"@, "created"@))
        }),
        ({
            let filter = filter_request(client, creds, key);
            &&& reaches(client, creds, filter, Method::Get, "/filter/"@ + escaped(key))
            &&& filter.payload is Nothing && filter.query.len() == 0
        }),
        ({
            let transitions = transitions_request(client, creds, key);
            &&& reaches(
                client,
                creds,
                transitions,
                Method::Get,
                "/issue/"@ + escaped(key) + "/transitions"@,
            )
            &&& transitions.payload is Nothing && transitions.query.len() == 0
        }),
{
    lemma_address(client, "/issue/"@ + escaped(key));
    assert("/issue/"@ + escaped(key) + Seq::<char>::empty() =~= "/issue/"@ + escaped(key));
    lemma_address(client, "/issue/"@ + escaped(key) + "/changelog"@);
    lemma_address(client, "/issue/"@ + escaped(key) + "/comment"@);
    lemma_address(client, "/filter/"@ + escaped(key));
    lemma_address(client, "/issue/"@ + escaped(key) + "/transitions"@);
    let accept = ("Accept"@, "application/json"@);
    assert(seq![accept][0] == accept);
    let history = changelog_request(client, creds, key, start as int, size as int).query;
    assert(history[0] == ("startAt"@, numeral(start)));
    assert(history[1] == ("maxResults"@, numeral(size)));
    let comments = comments_request(client, creds, key, start as int, size as int).query;
    assert(comments[0] == ("startAt"@, numeral(start)));
    assert(comments[1] == ("maxResults"@, numeral(size)));
    assert(comments[2] == ("orderBy"@, "created"@));
}

/// A request brings one document, which is `document`.
pub open spec fn carries(
    client: ClientView,
    creds: Credentials,
    request: RequestView,
    method: Method,
    path: Seq<char>,
    document: JsonView,
) -> bool {
    &&& reaches(client, creds, request, method, path)
    &&& request.query.len() == 0
    &&& request.payload == PayloadView::Document(document)
}

proof fn lemma_names()
    ensures
        "body"@ != "visibility"@,
        "transition"@ != "fields"@,
        "transition"@ != "update"@,
        "fields"@ != "update"@,
        "jql"@ != "fields"@ && "jql"@ != "maxResults"@ && "jql"@ != "startAt"@,
        "fields"@ != "maxResults"@ && "fields"@ != "startAt"@,
        "maxResults"@ != "startAt"@,
        "nextPageToken"@ != "jql"@ && "nextPageToken"@ != "fields"@,
        "nextPageToken"@ != "maxResults"@ && "nextPageToken"@ != "startAt"@,
        "type"@ != "inwardIssue"@ && "type"@ != "outwardIssue"@,
        "inwardIssue"@ != "outwardIssue"@,
{
    reveal_strlit("body");
    reveal_strlit("visibility");
    reveal_strlit("transition");
    reveal_strlit("fields");
    reveal_strlit("update");
    reveal_strlit("jql");
    reveal_strlit("maxResults");
    reveal_strlit("startAt");
    reveal_strlit("nextPageToken");
    reveal_strlit("type");
    reveal_strlit("inwardIssue");
    reveal_strlit("outwardIssue");
    assert("body"@.len() == 4);
    assert("visibility"@.len() == 10);
    assert("transition"@.len() == 10);
    assert("fields"@.len() == 6 && "fields"@[0] == 'f');
    assert("update"@.len() == 6 && "update"@[0] == 'u');
    assert("jql"@.len() == 3);
    assert("maxResults"@.len() == 10);
    assert("startAt"@.len() == 7);
    assert("nextPageToken"@.len() == 13);
    assert("type"@.len() == 4);
    assert("inwardIssue"@.len() == 11);
    assert("outwardIssue"@.len() == 12);
}

/// A comment is brought to the issue with its text, and with a restriction of
/// who may see it exactly where there is one.
pub proof fn a_comment_is_brought_as_it_is(
    client: ClientView,
    creds: Credentials,
    key: Seq<char>,
    text: Seq<char>,
    visibility: Option<JsonView>,
)
    ensures
        ({
            let request = comment_request(client, creds, key, text, visibility);
            exists|document: JsonView, body: JsonView|
                {
                    &&& #[trigger] carries(
                        client,
                        creds,
                        request,
                        Method::Post,
                        "/issue/"@ + escaped(key) + "/comment"@,
                        document,
                    )
                    &&& #[trigger] holds(document, "body"@, body)
                    &&& says(body, text)
                    &&& match visibility {
                        Some(v) => holds(document, "visibility"@, v),
                        None => lacks(document, "visibility"@),
                    }
                }
        }),
{
    lemma_names();
    lemma_says(text);
    lemma_address(client, "/issue/"@ + escaped(key) + "/comment"@);
    let request = comment_request(client, creds, key, text, visibility);
    let document = request.payload->Document_0;
    assert(request.headers[0] == ("Accept"@, "application/json"@));
    assert(carries(
        client,
        creds,
        request,
        Method::Post,
        "/issue/"@ + escaped(key) + "/comment"@,
        document,
    ));
    assert(holds(document, "body"@, crate::client::adf(text)));
}

/// A transition is brought to the issue with its id, with the fields that are to
/// be set and with the comment, each exactly where there is one.
pub proof fn a_transition_is_brought_as_it_is(
    client: ClientView,
    creds: Credentials,
    key: Seq<char>,
    id: Seq<char>,
    fields: Option<JsonView>,
    comment: Option<Seq<char>>,
)
    ensures
        ({
            let request = transition_request(client, creds, key, id, fields, comment);
            let document = request.payload->Document_0;
            &&& carries(
                client,
                creds,
                request,
                Method::Post,
                "/issue/"@ + escaped(key) + "/transitions"@,
                document,
            )
            &&& holds2(document, "transition"@, "id"@, JsonView::Text(id))
            &&& match fields {
                Some(f) => holds(document, "fields"@, f),
                None => lacks(document, "fields"@),
            }
            &&& match comment {
                Some(text) => exists|added: JsonView, body: JsonView|
                    {
                        &&& #[trigger] holds2(
                            document,
                            "update"@,
                            "comment"@,
                            JsonView::Array(seq![added]),
                        )
                        &&& #[trigger] holds2(added, "add"@, "body"@, body)
                        &&& says(body, text)
                    },
                None => lacks(document, "update"@),
            }
        }),
{
    lemma_names();
    lemma_address(client, "/issue/"@ + escaped(key) + "/transitions"@);
    let request = transition_request(client, creds, key, id, fields, comment);
    let document = request.payload->Document_0;
    assert(request.headers[0] == ("Accept"@, "application/json"@));
    assert(holds(
        document,
        "transition"@,
        JsonView::Object(map!["id"@ => JsonView::Text(id)]),
    ));
    if let Some(text) = comment {
        lemma_says(text);
        let body = crate::client::adf(text);
        let inner = JsonView::Object(map!["body"@ => body]);
        let added = JsonView::Object(map!["add"@ => inner]);
        let list = JsonView::Object(map!["comment"@ => JsonView::Array(seq![added])]);
        assert(holds(document, "update"@, list));
        assert(holds(list, "comment"@, JsonView::Array(seq![added])));
        assert(holds2(document, "update"@, "comment"@, JsonView::Array(seq![added])));
        assert(holds(added, "add"@, inner));
        assert(holds2(added, "add"@, "body"@, body));
    }
}

/// The fields of an issue are brought to it as they are given, and so are those
/// of a new one; the account of a watcher is brought to the issue; a link names
/// its type and an issue on each side; and a file is brought with its name and
/// its bytes.
pub proof fn what_is_given_is_brought_as_it_is(
    client: ClientView,
    creds: Credentials,
    key: Seq<char>,
    fields: JsonView,
    other: Seq<char>,
    name: Seq<char>,
    data: Seq<u8>,
)
    ensures
        ({
            let update = update_request(client, creds, key, fields);
            let document = update.payload->Document_0;
            &&& carries(
                client,
                creds,
                update,
                Method::Put,
                "/issue/"@ + escaped(key),
                document,
            )
            &&& holds(document, "fields"@, fields)
            &&& forall|k: Seq<char>| k != "fields"@ ==> #[trigger] lacks(document, k)
        }),
        ({
            let create = create_request(client, creds, fields);
            let document = create.payload->Document_0;
            &&& carries(client, creds, create, Method::Post, "/issue"@, document)
            &&& holds(document, "fields"@, fields)
            &&& forall|k: Seq<char>| k != "fields"@ ==> #[trigger] lacks(document, k)
        }),
        carries(
            client,
            creds,
            watcher_request(client, creds, key, name),
            Method::Post,
            "/issue/"@ + escaped(key) + "/watchers"@,
            JsonView::Text(name),
        ),
        ({
            let link = link_request(client, creds, name, key, other);
            let document = link.payload->Document_0;
            &&& carries(client, creds, link, Method::Post, "/issueLink"@, document)
            &&& holds2(document, "type"@, "name"@, JsonView::Text(name))
            &&& holds2(document, "inwardIssue"@, "key"@, JsonView::Text(key))
            &&& holds2(document, "outwardIssue"@, "key"@, JsonView::Text(other))
        }),
        ({
            let upload = upload_request(client, creds, key, name, data);
            &&& reaches(
                client,
                creds,
                upload,
                Method::Post,
                "/issue/"@ + escaped(key) + "/attachments"@,
            )
            &&& upload.headers.contains(("X-Atlassian-Token"@, "no-check"@))
            &&& upload.query.len() == 0
            &&& upload.payload == (PayloadView::File { filename: name, data })
        }),
{
    lemma_names();
    lemma_address(client, "/issue/"@ + escaped(key));
    assert("/issue/"@ + escaped(key) + Seq::<char>::empty() =~= "/issue/"@ + escaped(key));
    lemma_address(client, "/issue"@);
    lemma_address(client, "/issueLink"@);
    lemma_address(client, "/issue/"@ + escaped(key) + "/watchers"@);
    lemma_address(client, "/issue/"@ + escaped(key) + "/attachments"@);
    let accept = ("Accept"@, "application/json"@);
    assert(seq![accept][0] == accept);
    let document = link_request(client, creds, name, key, other).payload->Document_0;
    assert(holds(document, "type"@, JsonView::Object(map!["name"@ => JsonView::Text(name)])));
    assert(holds(
        document,
        "inwardIssue"@,
        JsonView::Object(map!["key"@ => JsonView::Text(key)]),
    ));
    assert(holds(
        document,
        "outwardIssue"@,
        JsonView::Object(map!["key"@ => JsonView::Text(other)]),
    ));
    let headers = upload_request(client, creds, key, name, data).headers;
    assert(headers[0] == accept);
    assert(headers[1] == ("X-Atlassian-Token"@, "no-check"@));
}

/// A document asks for what a query asks for.
pub open spec fn asks_the_query(document: JsonView, query: QueryView) -> bool {
    &&& holds(document, "jql"@, JsonView::Text(query.jql))
    &&& holds(document, "maxResults"@, JsonView::Unsigned(query.max_results as nat))
    &&& exists|value: JsonView| #[trigger]
        holds(document, "fields"@, value) && texts_list(value, query.fields)
}

/// A search brings its query, whatever that is. By token it says with which page
/// it goes on, where that is known; by offset it says where it begins. The site
/// is asked by token first where its API knows that.
pub proof fn a_search_brings_its_query(client: ClientView, creds: Credentials, query: QueryView)
    ensures
        ({
            let offset = offset_search_request(client, creds, query);
            let document = offset.payload->Document_0;
            &&& carries(client, creds, offset, Method::Post, "/search"@, document)
            &&& asks_the_query(document, query)
            &&& lacks(document, "nextPageToken"@)
            &&& holds(
                document,
                "startAt"@,
                JsonView::Unsigned(
                    match query.start_at {
                        Some(n) => n as nat,
                        None => 0,
                    },
                ),
            )
        }),
        client.api_version == ApiVersion::V2 ==> search_request(client, creds, query)
            == offset_search_request(client, creds, query),
        client.api_version == ApiVersion::V3 ==> ({
            let first = search_request(client, creds, query);
            let document = first.payload->Document_0;
            &&& carries(client, creds, first, Method::Post, "/search/jql"@, document)
            &&& asks_the_query(document, query)
            &&& lacks(document, "startAt"@)
            &&& match query.next_page_token {
                Some(token) => holds(document, "nextPageToken"@, JsonView::Text(token)),
                None => lacks(document, "nextPageToken"@),
            }
        }),
{
    lemma_names();
    lemma_address(client, "/search"@);
    lemma_address(client, "/search/jql"@);
    let accept = ("Accept"@, "application/json"@);
    assert(seq![accept][0] == accept);
    let fields = crate::json::text_array(query.fields);
    assert(texts_list(fields, query.fields));
    assert(holds(
        offset_search_request(client, creds, query).payload->Document_0,
        "fields"@,
        fields,
    ));
    if client.api_version == ApiVersion::V3 {
        assert(holds(
            search_request(client, creds, query).payload->Document_0,
            "fields"@,
            fields,
        ));
    }
}

/// A download asks for the bytes at an address, with the credentials, and stops
/// at the limit where there is one.
pub proof fn a_download_asks_for_bytes(
    client: ClientView,
    creds: Credentials,
    url: UrlView,
    limit: Option<u64>,
)
    ensures
        ({
            let request = download_request(client, creds, url, limit);
            &&& request.method == Method::Get
            &&& request.url == url.text
            &&& request.query.len() == 0
            &&& request.payload is Nothing
            &&& request.transfer == (Transfer::Bytes { limit })
            &&& vouched(client, creds, request)
        }),
{
}

/// The address of an attachment is what the site says where that is a whole
/// address, and is below the site otherwise.
pub proof fn an_attachment_is_where_the_site_says(base: Seq<char>, content: Seq<char>)
    ensures
        begins_with(content, "https://"@) ==> content_address(base, content) == content,
        begins_with(content, "http://"@) ==> content_address(base, content) == content,
        content.len() > 0 && content[0] == '/' ==> content_address(base, content) == base
            + content,
        content.len() > 0 && content[0] != '/' && content[0] != 'h' ==> content_address(
            base,
            content,
        ) == base + "/"@ + content,
{
    reveal_strlit("http://");
    reveal_strlit("https://");
    reveal_strlit("/");
    assert("http://"@.len() == 7 && "http://"@[0] == 'h');
    assert("https://"@.len() == 8 && "https://"@[0] == 'h');
    assert("/"@.len() == 1 && "/"@[0] == '/');
    if content.len() > 0 {
        assert(content.take(1) =~= seq![content[0]]);
        assert("/"@ =~= seq!['/']);
        if begins_with(content, "/"@) {
            assert(content[0] == '/');
        }
        if begins_with(content, "http://"@) {
            assert(content.take(7)[0] == "http://"@[0]);
            assert(content[0] == 'h');
        }
        if begins_with(content, "https://"@) {
            assert(content.take(8)[0] == "https://"@[0]);
            assert(content[0] == 'h');
        }
    }
}

/// An address is of the origin that it names; one that wraps another is of the
/// origin of what it wraps.
pub proof fn an_address_is_of_its_origin(text: Seq<char>)
    requires
        url_parse(text) is Some,
        text.len() > 0,
    ensures
        url_read(text) is Some,
        url_read(text)->0.text == url_parse(text)->0.text,
        url_read(text)->0.host == url_parse(text)->0.host,
        url_parse(text)->0.scheme != "blob"@ ==> url_read(text)->0.origin == url_origin(text),
        url_parse(text)->0.scheme == "blob"@ && url_parse(url_parse(text)->0.path) is Some
            && url_parse(url_parse(text)->0.path)->0.scheme != "blob"@ ==> url_read(text)->0.origin
            == url_origin(url_parse(text)->0.path),
        url_parse(text)->0.scheme == "blob"@ && url_parse(url_parse(text)->0.path) is None
            ==> url_read(text)->0.origin is None,
{
    reveal_with_fuel(origin_within, 2);
}

} // verus!
