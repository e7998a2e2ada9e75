//! Issue keys inside what the client is shown.
//!
//! A served issue names other issues through its links, its parent, its
//! subtasks and declared link fields; a changelog names them in its values. A
//! key that may not be disclosed is taken out before anything is served.

use vstd::prelude::*;
use vstd::string::*;

use crate::guard::Guard;
use crate::json::{items_view, Json, JsonView, Members};
use crate::keyset::{admits, ascending, texts, KeySet};
use crate::meta::optional_str;
use crate::text::{chars_of, trim, trimmed};

verus! {

// --- the shape of an issue key ----------------------------------------------

pub open spec fn ascii_digit(c: char) -> bool {
    '0' <= c <= '9'
}

pub open spec fn ascii_alphanumeric(c: char) -> bool {
    ascii_digit(c) || 'A' <= c <= 'Z' || 'a' <= c <= 'z'
}

/// `t` is letters and digits up to a hyphen at `k`, and digits after it.
pub open spec fn hyphen_at(t: Seq<char>, k: int) -> bool {
    &&& 0 < k < t.len() - 1
    &&& t[k] == '-'
    &&& forall|i: int| 0 <= i < k ==> ascii_alphanumeric(#[trigger] t[i])
    &&& forall|i: int| k < i < t.len() ==> ascii_digit(#[trigger] t[i])
}

/// A text has the rough shape of an issue key, as in `ABC-123`, white space
/// around it aside.
pub open spec fn key_like(s: Seq<char>) -> bool {
    exists|k: int| hyphen_at(trimmed(s), k)
}

/// Whether a text has the rough shape of an issue key.
pub fn looks_like_issue_key(s: &str) -> (res: bool)
    ensures
        res == key_like(s@),
{
    let t = chars_of(trim(s));
    let ghost text = trimmed(s@);
    let mut k: usize = 0;
    while k < t.len() && (('0' <= t[k] && t[k] <= '9') || ('A' <= t[k] && t[k] <= 'Z') || ('a'
        <= t[k] && t[k] <= 'z'))
        invariant
            t@ == text,
            k <= t.len(),
            forall|i: int| 0 <= i < k ==> ascii_alphanumeric(#[trigger] text[i]),
        decreases t.len() - k,
    {
        k += 1;
    }
    proof {
        assert forall|j: int| #[trigger] hyphen_at(text, j) implies j == k by {
            if j < k {
                assert(ascii_alphanumeric(text[j]));
            } else if j > k {
                assert(ascii_alphanumeric(text[k as int]));
            }
        }
    }
    if k == 0 || k >= t.len() || t[k] != '-' || k + 1 == t.len() {
        return false;
    }
    let mut i: usize = k + 1;
    while i < t.len()
        invariant
            t@ == text,
            text == trimmed(s@),
            k < i <= t.len(),
            forall|j: int| #[trigger] hyphen_at(text, j) ==> j == k,
            forall|j: int| k < j < i ==> ascii_digit(#[trigger] text[j]),
        decreases t.len() - i,
    {
        if !('0' <= t[i] && t[i] <= '9') {
            assert(!ascii_digit(text[i as int]));
            return false;
        }
        i += 1;
    }
    assert(hyphen_at(text, k as int));
    true
}

// --- references -------------------------------------------------------------

/// The lists of an issue whose elements name other issues.
#[derive(Clone, Copy, PartialEq, Eq, Structural)]
pub enum Reference {
    Link,
    Subtask,
}

impl Reference {
    /// The field that holds the list.
    pub open spec fn field(self) -> Seq<char> {
        match self {
            Reference::Link => "issuelinks"@,
            Reference::Subtask => "subtasks"@,
        }
    }
}

/// A key that may not be disclosed.
pub open spec fn undisclosed(key: Option<Seq<char>>, disclosable: Set<Seq<char>>) -> bool {
    match key {
        Some(k) => !admits(disclosable, k),
        None => false,
    }
}

/// An element names an issue that may not be disclosed: on a link, on either
/// side.
pub open spec fn hidden(kind: Reference, item: JsonView, disclosable: Set<Seq<char>>) -> bool {
    match kind {
        Reference::Link => undisclosed(item.text_at2("inwardIssue"@, "key"@), disclosable)
            || undisclosed(item.text_at2("outwardIssue"@, "key"@), disclosable),
        Reference::Subtask => undisclosed(item.text_at("key"@), disclosable),
    }
}

/// An element names the issue `key`.
pub open spec fn names(kind: Reference, item: JsonView, key: Seq<char>) -> bool {
    match kind {
        Reference::Link => item.text_at2("inwardIssue"@, "key"@) == Some(key) || item.text_at2(
            "outwardIssue"@,
            "key"@,
        ) == Some(key),
        Reference::Subtask => item.text_at("key"@) == Some(key),
    }
}

/// An element of the list names the issue `key`.
pub open spec fn some_names(kind: Reference, items: Seq<JsonView>, key: Seq<char>) -> bool {
    exists|i: int| 0 <= i < items.len() && names(kind, #[trigger] items[i], key)
}

/// An element that names no issue but such as may be disclosed.
pub open spec fn shown(kind: Reference, disclosable: Set<Seq<char>>) -> spec_fn(JsonView) -> bool {
    |item: JsonView| !hidden(kind, item, disclosable)
}

/// The elements of a list field; none where the field holds no list.
pub open spec fn listed(fields: JsonView, name: Seq<char>) -> Seq<JsonView> {
    match fields.items_at(name) {
        Some(items) => items,
        None => Seq::empty(),
    }
}

/// A declared link field names the issue `key`.
pub open spec fn custom_names(
    fields: JsonView,
    custom: Seq<Seq<char>>,
    key: Seq<char>,
) -> bool {
    exists|i: int|
        0 <= i < custom.len() && custom_names_at(fields, #[trigger] custom[i], key)
}

/// The declared link field `name` names the issue `key`.
pub open spec fn custom_names_at(fields: JsonView, name: Seq<char>, key: Seq<char>) -> bool {
    match fields.text_at(name) {
        Some(s) => key_like(s) && trimmed(s) == key,
        None => false,
    }
}

/// Where the references of an issue stand: in its fields, or in itself where
/// it has none.
pub open spec fn referring(issue: JsonView) -> JsonView {
    match issue.get("fields"@) {
        Some(f) => f,
        None => issue,
    }
}

/// A served issue names the issue `key`.
pub open spec fn refers_to(issue: JsonView, custom: Seq<Seq<char>>, key: Seq<char>) -> bool {
    let fields = referring(issue);
    ||| some_names(Reference::Link, listed(fields, "issuelinks"@), key)
    ||| fields.text_at2("parent"@, "key"@) == Some(key)
    ||| some_names(Reference::Subtask, listed(fields, "subtasks"@), key)
    ||| custom_names(fields, custom, key)
}

proof fn lemma_names_step(kind: Reference, all: Seq<JsonView>, i: int, k: Seq<char>)
    requires
        0 <= i < all.len(),
    ensures
        some_names(kind, all.take(i + 1), k) == (some_names(kind, all.take(i), k) || names(
            kind,
            all[i],
            k,
        )),
{
    let a = all.take(i);
    let b = all.take(i + 1);
    assert(b[i] == all[i]);
    if some_names(kind, a, k) {
        let j = choose|j: int| 0 <= j < a.len() && names(kind, #[trigger] a[j], k);
        assert(names(kind, b[j], k));
    }
    if some_names(kind, b, k) {
        let j = choose|j: int| 0 <= j < b.len() && names(kind, #[trigger] b[j], k);
        if j < i {
            assert(names(kind, a[j], k));
        }
    }
}

/// Adds the keys that the elements of a list name.
fn collect(kind: Reference, items: &Vec<Json>, keys: &mut KeySet)
    ensures
        forall|k: Seq<char>| #[trigger]
            final(keys)@.contains(k) == (old(keys)@.contains(k) || some_names(
                kind,
                items_view(items@),
                k,
            )),
{
    let ghost start = keys@;
    let ghost views = items_view(items@);
    let mut i: usize = 0;
    while i < items.len()
        invariant
            i <= items.len(),
            views == items_view(items@),
            forall|k: Seq<char>| #[trigger]
                keys@.contains(k) == (start.contains(k) || some_names(
                    kind,
                    views.take(i as int),
                    k,
                )),
        decreases items.len() - i,
    {
        let ghost earlier = keys@;
        let item = &items[i];
        assert(item@ == views[i as int]);
        match kind {
            Reference::Link => {
                if let Some(k) = item.text_at2("inwardIssue", "key") {
                    keys.insert(k);
                }
                if let Some(k) = item.text_at2("outwardIssue", "key") {
                    keys.insert(k);
                }
            },
            Reference::Subtask => {
                if let Some(k) = item.text_at("key") {
                    keys.insert(k);
                }
            },
        }
        proof {
            assert forall|k: Seq<char>| #[trigger] keys@.contains(k) == (start.contains(k)
                || some_names(kind, views.take(i + 1), k)) by {
                assert(keys@.contains(k) == (earlier.contains(k) || names(
                    kind,
                    views[i as int],
                    k,
                )));
                lemma_names_step(kind, views, i as int, k);
            }
        }
        i += 1;
    }
    assert(views.take(items@.len() as int) =~= views);
}

/// Adds the keys that the declared link fields name.
fn collect_custom(fields: &Json, custom: &Vec<String>, keys: &mut KeySet)
    ensures
        forall|k: Seq<char>| #[trigger]
            final(keys)@.contains(k) == (old(keys)@.contains(k) || custom_names(
                fields@,
                texts(custom@),
                k,
            )),
{
    let ghost start = keys@;
    let ghost all = texts(custom@);
    let mut i: usize = 0;
    while i < custom.len()
        invariant
            i <= custom.len(),
            all == texts(custom@),
            forall|k: Seq<char>| #[trigger]
                keys@.contains(k) == (start.contains(k) || custom_names(
                    fields@,
                    all.take(i as int),
                    k,
                )),
        decreases custom.len() - i,
    {
        let ghost earlier = keys@;
        let name = custom[i].as_str();
        if let Some(s) = fields.text_at(name) {
            if looks_like_issue_key(s) {
                keys.insert(trim(s));
            }
        }
        proof {
            assert forall|k: Seq<char>| #[trigger] keys@.contains(k) == (start.contains(k)
                || custom_names(fields@, all.take(i + 1), k)) by {
                assert(keys@.contains(k) == (earlier.contains(k) || custom_names_at(
                    fields@,
                    all[i as int],
                    k,
                )));
                lemma_custom_step(fields@, all, i as int, k);
            }
        }
        i += 1;
    }
    assert(all.take(custom@.len() as int) =~= all);
}

proof fn lemma_custom_step(fields: JsonView, all: Seq<Seq<char>>, i: int, k: Seq<char>)
    requires
        0 <= i < all.len(),
    ensures
        custom_names(fields, all.take(i + 1), k) == (custom_names(fields, all.take(i), k)
            || custom_names_at(fields, all[i], k)),
{
    let a = all.take(i);
    let b = all.take(i + 1);
    assert(b[i] == all[i]);
    if custom_names(fields, a, k) {
        let j = choose|j: int| 0 <= j < a.len() && custom_names_at(fields, #[trigger] a[j], k);
        assert(custom_names_at(fields, b[j], k));
    }
    if custom_names(fields, b, k) {
        let j = choose|j: int| 0 <= j < b.len() && custom_names_at(fields, #[trigger] b[j], k);
        if j < i {
            assert(custom_names_at(fields, a[j], k));
        }
    }
}

impl Guard {
    /// The issue keys that a served issue names: through its links, its parent,
    /// its subtasks and the declared link fields. Other fields and free text
    /// are not scanned.
    pub fn linked_keys(issue: &Json, link_custom_fields: &Vec<String>) -> (res: KeySet)
        ensures
            forall|k: Seq<char>| #[trigger]
                res@.contains(k) == refers_to(issue@, texts(link_custom_fields@), k),
    {
        let mut keys = KeySet::new();
        let fields = match issue.get("fields") {
            Some(f) => f,
            None => issue,
        };
        if let Some(links) = fields.items_at("issuelinks") {
            collect(Reference::Link, links, &mut keys);
        }
        if let Some(k) = fields.text_at2("parent", "key") {
            keys.insert(k);
        }
        if let Some(subtasks) = fields.items_at("subtasks") {
            collect(Reference::Subtask, subtasks, &mut keys);
        }
        collect_custom(fields, link_custom_fields, &mut keys);
        keys
    }
}

// --- scrubbing links --------------------------------------------------------

/// The fields with the hidden elements of a list taken out; a field that holds
/// no list stays as it is.
pub open spec fn with_shown(
    fields: Map<Seq<char>, JsonView>,
    kind: Reference,
    disclosable: Set<Seq<char>>,
) -> Map<Seq<char>, JsonView> {
    match JsonView::Object(fields).items_at(kind.field()) {
        Some(items) => fields.insert(
            kind.field(),
            JsonView::Array(items.filter(shown(kind, disclosable))),
        ),
        None => fields,
    }
}

/// The fields without a parent that may not be disclosed.
pub open spec fn with_shown_parent(
    fields: Map<Seq<char>, JsonView>,
    disclosable: Set<Seq<char>>,
) -> Map<Seq<char>, JsonView> {
    if undisclosed(JsonView::Object(fields).text_at2("parent"@, "key"@), disclosable) {
        fields.remove("parent"@)
    } else {
        fields
    }
}

/// A declared link field may be served: it is unset, or an issue key that may
/// be disclosed.
pub open spec fn servable(value: JsonView, disclosable: Set<Seq<char>>) -> bool {
    match value {
        JsonView::Null => true,
        JsonView::Text(s) => key_like(s) && admits(disclosable, trimmed(s)),
        _ => false,
    }
}

/// The fields with every declared link field that may not be served unset.
pub open spec fn with_servable(
    fields: Map<Seq<char>, JsonView>,
    custom: Seq<Seq<char>>,
    disclosable: Set<Seq<char>>,
) -> Map<Seq<char>, JsonView> {
    Map::new(
        |name: Seq<char>| fields.dom().contains(name),
        |name: Seq<char>|
            if custom.contains(name) && !servable(fields[name], disclosable) {
                JsonView::Null
            } else {
                fields[name]
            },
    )
}

/// The fields with their lists and their parent scrubbed.
pub open spec fn scrubbed_lists(
    fields: Map<Seq<char>, JsonView>,
    disclosable: Set<Seq<char>>,
) -> Map<Seq<char>, JsonView> {
    with_shown(
        with_shown_parent(with_shown(fields, Reference::Link, disclosable), disclosable),
        Reference::Subtask,
        disclosable,
    )
}

/// An issue with every reference to an issue that may not be disclosed taken
/// out.
pub open spec fn scrubbed(
    issue: JsonView,
    custom: Seq<Seq<char>>,
    disclosable: Set<Seq<char>>,
) -> JsonView {
    match issue {
        JsonView::Object(members) => match issue.get("fields"@) {
            Some(JsonView::Object(fields)) => JsonView::Object(
                members.insert(
                    "fields"@,
                    JsonView::Object(
                        with_servable(scrubbed_lists(fields, disclosable), custom, disclosable),
                    ),
                ),
            ),
            _ => issue,
        },
        _ => issue,
    }
}

/// Scrubbing an issue takes references to the issue `key` out: the fields name
/// it, and it may not be disclosed.
pub open spec fn scrubbed_key(
    issue: JsonView,
    custom: Seq<Seq<char>>,
    disclosable: Set<Seq<char>>,
    key: Seq<char>,
) -> bool {
    &&& issue.get("fields"@) matches Some(JsonView::Object(_))
    &&& refers_to(issue, custom, key)
    &&& !admits(disclosable, key)
}

/// Notes a key that may not be disclosed; whether it is one.
fn note_undisclosed(key: Option<&str>, disclosable: &KeySet, removed: &mut KeySet) -> (res: bool)
    ensures
        res == undisclosed(optional_str(key), disclosable@),
        forall|k: Seq<char>| #[trigger]
            final(removed)@.contains(k) == (old(removed)@.contains(k) || (optional_str(key)
                == Some(k) && !admits(disclosable@, k))),
{
    match key {
        Some(k) => if disclosable.admits_key(k) {
            false
        } else {
            removed.insert(k);
            true
        },
        None => false,
    }
}

/// Notes every key in an element that may not be disclosed; whether there is
/// one.
fn note_hidden(kind: Reference, item: &Json, disclosable: &KeySet, removed: &mut KeySet) -> (res:
    bool)
    ensures
        res == hidden(kind, item@, disclosable@),
        forall|k: Seq<char>| #[trigger]
            final(removed)@.contains(k) == (old(removed)@.contains(k) || (names(kind, item@, k)
                && !admits(disclosable@, k))),
{
    match kind {
        Reference::Link => {
            let inward = note_undisclosed(
                item.text_at2("inwardIssue", "key"),
                disclosable,
                removed,
            );
            let outward = note_undisclosed(
                item.text_at2("outwardIssue", "key"),
                disclosable,
                removed,
            );
            inward || outward
        },
        Reference::Subtask => note_undisclosed(item.text_at("key"), disclosable, removed),
    }
}

/// Keeps the shown elements of a list, and notes the keys for which the others
/// went.
fn keep_shown(kind: Reference, items: &Vec<Json>, disclosable: &KeySet, removed: &mut KeySet) -> (res:
    Vec<Json>)
    ensures
        items_view(res@) == items_view(items@).filter(shown(kind, disclosable@)),
        forall|k: Seq<char>| #[trigger]
            final(removed)@.contains(k) == (old(removed)@.contains(k) || (some_names(
                kind,
                items_view(items@),
                k,
            ) && !admits(disclosable@, k))),
{
    let ghost start = removed@;
    let ghost views = items_view(items@);
    let ghost keep = shown(kind, disclosable@);
    let mut kept: Vec<Json> = Vec::new();
    let mut i: usize = 0;
    proof {
        reveal(Seq::filter);
        assert(views.take(0) =~= Seq::empty());
        assert(items_view(kept@) =~= views.take(0).filter(keep));
    }
    while i < items.len()
        invariant
            i <= items.len(),
            views == items_view(items@),
            keep == shown(kind, disclosable@),
            items_view(kept@) == views.take(i as int).filter(keep),
            forall|k: Seq<char>| #[trigger]
                removed@.contains(k) == (start.contains(k) || (some_names(
                    kind,
                    views.take(i as int),
                    k,
                ) && !admits(disclosable@, k))),
        decreases items.len() - i,
    {
        let ghost earlier = removed@;
        let ghost held = items_view(kept@);
        let item = &items[i];
        assert(item@ == views[i as int]);
        if !note_hidden(kind, item, disclosable, removed) {
            kept.push(item.clone());
        }
        proof {
            let a = views.take(i as int);
            let b = views.take(i + 1);
            assert(b.drop_last() =~= a);
            assert(b.last() == views[i as int]);
            reveal(Seq::filter);
            if keep(views[i as int]) {
                assert(items_view(kept@) =~= held.push(views[i as int]));
            } else {
                assert(items_view(kept@) =~= held);
            }
            assert forall|k: Seq<char>| #[trigger] removed@.contains(k) == (start.contains(k) || (
            some_names(kind, b, k) && !admits(disclosable@, k))) by {
                assert(removed@.contains(k) == (earlier.contains(k) || (names(
                    kind,
                    views[i as int],
                    k,
                ) && !admits(disclosable@, k))));
                lemma_names_step(kind, views, i as int, k);
            }
        }
        i += 1;
    }
    assert(views.take(items@.len() as int) =~= views);
    kept
}

/// Takes the hidden elements of a list field out.
fn scrub_list(kind: Reference, fields: &mut Members, disclosable: &KeySet, removed: &mut KeySet)
    ensures
        final(fields)@ == with_shown(old(fields)@, kind, disclosable@),
        forall|k: Seq<char>| #[trigger]
            final(removed)@.contains(k) == (old(removed)@.contains(k) || (some_names(
                kind,
                listed(JsonView::Object(old(fields)@), kind.field()),
                k,
            ) && !admits(disclosable@, k))),
{
    let name = match kind {
        Reference::Link => "issuelinks",
        Reference::Subtask => "subtasks",
    };
    let kept = match fields.get(name) {
        Some(Json::Array(items)) => keep_shown(kind, items, disclosable, removed),
        _ => return,
    };
    fields.insert(name, Json::Array(kept));
}

/// Takes a parent out that may not be disclosed.
fn scrub_parent(fields: &mut Members, disclosable: &KeySet, removed: &mut KeySet)
    ensures
        final(fields)@ == with_shown_parent(old(fields)@, disclosable@),
        forall|k: Seq<char>| #[trigger]
            final(removed)@.contains(k) == (old(removed)@.contains(k) || (JsonView::Object(
                old(fields)@,
            ).text_at2("parent"@, "key"@) == Some(k) && !admits(disclosable@, k))),
{
    let hide = match fields.get("parent") {
        Some(parent) => match parent.text_at("key") {
            Some(k) => if !disclosable.admits_key(k) {
                removed.insert(k);
                true
            } else {
                false
            },
            None => false,
        },
        None => false,
    };
    if hide {
        fields.remove("parent");
    }
}

/// Unsets a declared link field that may not be served.
fn scrub_custom_field(fields: &mut Members, name: &str, disclosable: &KeySet, removed: &mut KeySet)
    ensures
        final(fields)@ == with_servable(old(fields)@, seq![name@], disclosable@),
        forall|k: Seq<char>| #[trigger]
            final(removed)@.contains(k) == (old(removed)@.contains(k) || (custom_names_at(
                JsonView::Object(old(fields)@),
                name@,
                k,
            ) && !admits(disclosable@, k))),
{
    let ghost start = fields@;
    let unset = match fields.get(name) {
        Some(Json::Null) => false,
        Some(Json::Text(s)) => if looks_like_issue_key(s.as_str()) {
            let key = trim(s.as_str());
            if disclosable.admits_key(key) {
                false
            } else {
                removed.insert(key);
                true
            }
        } else {
            true
        },
        Some(_) => true,
        None => false,
    };
    proof {
        assert(seq![name@].contains(name@)) by {
            assert(seq![name@][0] == name@);
        }
        let after = if unset { start.insert(name@, JsonView::Null) } else { start };
        assert(after =~= with_servable(start, seq![name@], disclosable@));
    }
    if unset {
        fields.insert(name, Json::Null);
    }
}

/// Scrubbing one declared field after the others comes to the same as scrubbing
/// all of them at once.
proof fn lemma_servable_step(
    fields: Map<Seq<char>, JsonView>,
    custom: Seq<Seq<char>>,
    i: int,
    disclosable: Set<Seq<char>>,
)
    requires
        0 <= i < custom.len(),
    ensures
        with_servable(
            with_servable(fields, custom.take(i), disclosable),
            seq![custom[i]],
            disclosable,
        ) == with_servable(fields, custom.take(i + 1), disclosable),
        forall|k: Seq<char>|
            (custom_names(JsonView::Object(fields), custom.take(i + 1), k) && !admits(
                disclosable,
                k,
            )) == ((#[trigger] custom_names(JsonView::Object(fields), custom.take(i), k) && !admits(
                disclosable,
                k,
            )) || (custom_names_at(
                JsonView::Object(with_servable(fields, custom.take(i), disclosable)),
                custom[i],
                k,
            ) && !admits(disclosable, k))),
{
    let a = custom.take(i);
    let b = custom.take(i + 1);
    let one = seq![custom[i]];
    assert(one[0] == custom[i]);
    assert(b[i] == custom[i]);
    assert forall|n: Seq<char>| #[trigger] b.contains(n) == (a.contains(n) || one.contains(n)) by {
        if a.contains(n) {
            let j = choose|j: int| 0 <= j < a.len() && a[j] == n;
            assert(b[j] == n);
        }
        if b.contains(n) {
            let j = choose|j: int| 0 <= j < b.len() && b[j] == n;
            if j < i {
                assert(a[j] == n);
            }
        }
    }
    let mid = with_servable(fields, a, disclosable);
    assert(with_servable(mid, one, disclosable) =~= with_servable(fields, b, disclosable)) by {
        assert forall|n: Seq<char>| fields.dom().contains(n) implies #[trigger] with_servable(
            mid,
            one,
            disclosable,
        )[n] == with_servable(fields, b, disclosable)[n] by {
            assert(b.contains(n) == (a.contains(n) || one.contains(n)));
        }
    }
    assert forall|k: Seq<char>|
        (custom_names(JsonView::Object(fields), b, k) && !admits(disclosable, k)) == ((
        #[trigger] custom_names(JsonView::Object(fields), a, k) && !admits(disclosable, k))
            || (custom_names_at(JsonView::Object(mid), custom[i], k) && !admits(
            disclosable,
            k,
        ))) by {
        lemma_custom_step(JsonView::Object(fields), custom, i, k);
        if a.contains(custom[i]) && !admits(disclosable, k) {
            let j = choose|j: int| 0 <= j < a.len() && a[j] == custom[i];
            assert(custom_names_at(JsonView::Object(fields), a[j], k) == custom_names_at(
                JsonView::Object(fields),
                custom[i],
                k,
            ));
            assert(!custom_names_at(JsonView::Object(mid), custom[i], k));
        }
    }
}

/// Unsets every declared link field that may not be served.
fn scrub_custom(
    fields: &mut Members,
    custom: &Vec<String>,
    disclosable: &KeySet,
    removed: &mut KeySet,
)
    ensures
        final(fields)@ == with_servable(old(fields)@, texts(custom@), disclosable@),
        forall|k: Seq<char>| #[trigger]
            final(removed)@.contains(k) == (old(removed)@.contains(k) || (custom_names(
                JsonView::Object(old(fields)@),
                texts(custom@),
                k,
            ) && !admits(disclosable@, k))),
{
    let ghost start = fields@;
    let ghost gone = removed@;
    let ghost all = texts(custom@);
    let mut i: usize = 0;
    proof {
        assert(start =~= with_servable(start, all.take(0), disclosable@));
    }
    while i < custom.len()
        invariant
            i <= custom.len(),
            all == texts(custom@),
            fields@ == with_servable(start, all.take(i as int), disclosable@),
            forall|k: Seq<char>| #[trigger]
                removed@.contains(k) == (gone.contains(k) || (custom_names(
                    JsonView::Object(start),
                    all.take(i as int),
                    k,
                ) && !admits(disclosable@, k))),
        decreases custom.len() - i,
    {
        let ghost earlier = removed@;
        scrub_custom_field(fields, custom[i].as_str(), disclosable, removed);
        proof {
            lemma_servable_step(start, all, i as int, disclosable@);
            assert forall|k: Seq<char>| #[trigger] removed@.contains(k) == (gone.contains(k) || (
            custom_names(JsonView::Object(start), all.take(i + 1), k) && !admits(
                disclosable@,
                k,
            ))) by {
                assert(earlier.contains(k) == (gone.contains(k) || (custom_names(
                    JsonView::Object(start),
                    all.take(i as int),
                    k,
                ) && !admits(disclosable@, k))));
            }
        }
        i += 1;
    }
    assert(all.take(custom@.len() as int) =~= all);
}

/// Scrubbing the lists and the parent leaves every text field as it is, and so
/// what the declared link fields name.
proof fn lemma_lists_keep_custom(
    fields: Map<Seq<char>, JsonView>,
    custom: Seq<Seq<char>>,
    disclosable: Set<Seq<char>>,
    key: Seq<char>,
)
    ensures
        custom_names(JsonView::Object(scrubbed_lists(fields, disclosable)), custom, key)
            == custom_names(JsonView::Object(fields), custom, key),
{
    let before = JsonView::Object(fields);
    let after = JsonView::Object(scrubbed_lists(fields, disclosable));
    assert forall|name: Seq<char>| #[trigger]
        custom_names_at(after, name, key) == custom_names_at(before, name, key) by {
        assert(after.text_at(name) == before.text_at(name));
    }
    if custom_names(before, custom, key) {
        let j = choose|j: int|
            0 <= j < custom.len() && custom_names_at(before, #[trigger] custom[j], key);
        assert(custom_names_at(after, custom[j], key));
    }
}

impl Guard {
    /// Takes out of an issue every link, parent and subtask that names an
    /// issue that may not be disclosed, and unsets each declared link field
    /// that is not an issue key that may be disclosed. Returns the issue and
    /// the keys that were removed: all that it named and that may not be
    /// disclosed, of a link on both sides. Those are for the audit stream only.
    ///
    /// `disclosable` holds what the client may see in this response, as a rule
    /// also the key it asked for.
    pub fn scrub_links(
        issue: &Json,
        disclosable: &KeySet,
        link_custom_fields: &Vec<String>,
    ) -> (res: (Json, Vec<String>))
        ensures
            res.0@ == scrubbed(issue@, texts(link_custom_fields@), disclosable@),
            ascending(texts(res.1@)),
            forall|k: Seq<char>| #[trigger]
                texts(res.1@).contains(k) == scrubbed_key(
                    issue@,
                    texts(link_custom_fields@),
                    disclosable@,
                    k,
                ),
    {
        let mut removed = KeySet::new();
        let members = match issue {
            Json::Object(members) => members,
            _ => return (issue.clone(), removed.into_keys()),
        };
        let mut fields = match members.get("fields") {
            Some(Json::Object(fields)) => fields.clone(),
            _ => return (issue.clone(), removed.into_keys()),
        };
        let ghost start = fields@;
        scrub_list(Reference::Link, &mut fields, disclosable, &mut removed);
        scrub_parent(&mut fields, disclosable, &mut removed);
        scrub_list(Reference::Subtask, &mut fields, disclosable, &mut removed);
        scrub_custom(&mut fields, link_custom_fields, disclosable, &mut removed);
        proof {
            reveal_strlit("issuelinks");
            reveal_strlit("parent");
            reveal_strlit("subtasks");
            assert("issuelinks"@.len() == 10 && "parent"@.len() == 6 && "subtasks"@.len() == 8);
        }
        proof {
            assert forall|k: Seq<char>| #[trigger] removed@.contains(k) == scrubbed_key(
                issue@,
                texts(link_custom_fields@),
                disclosable@,
                k,
            ) by {
                lemma_lists_keep_custom(start, texts(link_custom_fields@), disclosable@, k);
            }
        }
        let mut out = members.clone();
        out.insert("fields", Json::Object(fields));
        (Json::Object(out), removed.into_keys())
    }
}

// --- laws of scrubbing ------------------------------------------------------

proof fn lemma_field_names()
    ensures
        "issuelinks"@ != "parent"@,
        "issuelinks"@ != "subtasks"@,
        "parent"@ != "subtasks"@,
{
    reveal_strlit("issuelinks");
    reveal_strlit("parent");
    reveal_strlit("subtasks");
    assert("issuelinks"@.len() == 10 && "parent"@.len() == 6 && "subtasks"@.len() == 8);
}

/// What is left of a list names only issues that may be disclosed.
proof fn lemma_shown_names(
    kind: Reference,
    items: Seq<JsonView>,
    disclosable: Set<Seq<char>>,
    key: Seq<char>,
)
    requires
        some_names(kind, items.filter(shown(kind, disclosable)), key),
    ensures
        admits(disclosable, key),
{
    let kept = items.filter(shown(kind, disclosable));
    let i = choose|i: int| 0 <= i < kept.len() && names(kind, #[trigger] kept[i], key);
    items.lemma_filter_pred(shown(kind, disclosable), i);
}

/// No issue key that may not be disclosed is left in a scrubbed issue: every
/// key that it names through a link, its parent, a subtask or a declared link
/// field may be disclosed.
pub proof fn scrubbed_issue_names_only_disclosable(
    issue: JsonView,
    custom: Seq<Seq<char>>,
    disclosable: Set<Seq<char>>,
    key: Seq<char>,
)
    requires
        issue.get("fields"@) is Some,
        refers_to(scrubbed(issue, custom, disclosable), custom, key),
    ensures
        admits(disclosable, key),
{
    lemma_field_names();
    match issue.get("fields"@) {
        Some(JsonView::Object(fields)) => {
            let lists = scrubbed_lists(fields, disclosable);
            let after = with_servable(lists, custom, disclosable);
            let out = JsonView::Object(after);
            let links = listed(out, "issuelinks"@);
            let subtasks = listed(out, "subtasks"@);
            if some_names(Reference::Link, links, key) {
                assert(links == listed(JsonView::Object(fields), "issuelinks"@).filter(
                    shown(Reference::Link, disclosable),
                ));
                lemma_shown_names(
                    Reference::Link,
                    listed(JsonView::Object(fields), "issuelinks"@),
                    disclosable,
                    key,
                );
            } else if out.text_at2("parent"@, "key"@) == Some(key) {
                assert(lists.dom().contains("parent"@));
                assert(lists["parent"@] == fields["parent"@]);
            } else if some_names(Reference::Subtask, subtasks, key) {
                assert(subtasks == listed(JsonView::Object(fields), "subtasks"@).filter(
                    shown(Reference::Subtask, disclosable),
                ));
                lemma_shown_names(
                    Reference::Subtask,
                    listed(JsonView::Object(fields), "subtasks"@),
                    disclosable,
                    key,
                );
            } else {
                let j = choose|j: int|
                    0 <= j < custom.len() && custom_names_at(out, #[trigger] custom[j], key);
                assert(custom.contains(custom[j]));
            }
        },
        _ => {},
    }
}

/// The keys that scrubbing reports are exactly those that the fields named and
/// that may not be disclosed, and none of them is named any more.
pub proof fn scrubbed_keys_were_named_and_undisclosed(
    issue: JsonView,
    custom: Seq<Seq<char>>,
    disclosable: Set<Seq<char>>,
    key: Seq<char>,
)
    requires
        issue.get("fields"@) matches Some(JsonView::Object(_)),
    ensures
        scrubbed_key(issue, custom, disclosable, key) <==> refers_to(issue, custom, key) && !admits(
            disclosable,
            key,
        ),
        scrubbed_key(issue, custom, disclosable, key) ==> !refers_to(
            scrubbed(issue, custom, disclosable),
            custom,
            key,
        ),
{
    if refers_to(scrubbed(issue, custom, disclosable), custom, key) {
        scrubbed_issue_names_only_disclosable(issue, custom, disclosable, key);
    }
}

/// Scrubbing changes nothing but the links, the parent, the subtasks and the
/// declared link fields.
pub proof fn scrubbing_keeps_the_rest(
    issue: JsonView,
    custom: Seq<Seq<char>>,
    disclosable: Set<Seq<char>>,
    name: Seq<char>,
)
    ensures
        name != "fields"@ ==> scrubbed(issue, custom, disclosable).get(name) == issue.get(name),
        issue.get("fields"@) matches Some(fields) ==> name != "issuelinks"@ && name != "parent"@
            && name != "subtasks"@ && !custom.contains(name) ==> scrubbed(
            issue,
            custom,
            disclosable,
        ).get("fields"@)->0.get(name) == fields.get(name),
{
}

/// Scrubbing takes no reference out but on account of an issue that may not be
/// disclosed: what hides nothing stays.
pub proof fn scrubbing_keeps_what_is_disclosable(
    issue: JsonView,
    custom: Seq<Seq<char>>,
    disclosable: Set<Seq<char>>,
    kind: Reference,
    i: int,
)
    requires
        issue.get("fields"@) matches Some(JsonView::Object(_)),
        !custom.contains(kind.field()),
        0 <= i < listed(issue.get("fields"@)->0, kind.field()).len(),
        !hidden(kind, listed(issue.get("fields"@)->0, kind.field())[i], disclosable),
    ensures
        listed(
            scrubbed(issue, custom, disclosable).get("fields"@)->0,
            kind.field(),
        ).contains(listed(issue.get("fields"@)->0, kind.field())[i]),
{
    lemma_field_names();
    let items = listed(issue.get("fields"@)->0, kind.field());
    items.lemma_filter_contains(shown(kind, disclosable), i);
    assert(listed(scrubbed(issue, custom, disclosable).get("fields"@)->0, kind.field())
        == items.filter(shown(kind, disclosable)));
}

proof fn lemma_filter_twice(items: Seq<JsonView>, keep: spec_fn(JsonView) -> bool)
    ensures
        items.filter(keep).filter(keep) == items.filter(keep),
    decreases items.len(),
{
    reveal(Seq::filter);
    if items.len() > 0 {
        lemma_filter_twice(items.drop_last(), keep);
        let kept = items.drop_last().filter(keep);
        if keep(items.last()) {
            assert(kept.push(items.last()).drop_last() =~= kept);
        }
    }
}

/// Scrubbing what has been scrubbed changes nothing more.
pub proof fn scrubbing_is_idempotent(
    issue: JsonView,
    custom: Seq<Seq<char>>,
    disclosable: Set<Seq<char>>,
)
    ensures
        scrubbed(scrubbed(issue, custom, disclosable), custom, disclosable) == scrubbed(
            issue,
            custom,
            disclosable,
        ),
{
    lemma_field_names();
    match issue.get("fields"@) {
        Some(JsonView::Object(fields)) => {
            let before = JsonView::Object(fields);
            lemma_filter_twice(
                listed(before, "issuelinks"@),
                shown(Reference::Link, disclosable),
            );
            lemma_filter_twice(
                listed(before, "subtasks"@),
                shown(Reference::Subtask, disclosable),
            );
            let once = with_servable(scrubbed_lists(fields, disclosable), custom, disclosable);
            assert(with_shown(once, Reference::Link, disclosable) =~= once);
            assert(with_shown_parent(once, disclosable) =~= once);
            assert(with_shown(once, Reference::Subtask, disclosable) =~= once);
            assert(scrubbed_lists(once, disclosable) =~= once);
            assert(with_servable(once, custom, disclosable) =~= once);
            let members = issue->Object_0;
            assert(members.insert("fields"@, JsonView::Object(once)).insert(
                "fields"@,
                JsonView::Object(once),
            ) =~= members.insert("fields"@, JsonView::Object(once)));
        },
        _ => {},
    }
}

// --- changelogs -------------------------------------------------------------

/// The values of a change that can name an issue.
pub open spec fn change_value(name: Seq<char>) -> bool {
    name == "fromString"@ || name == "toString"@ || name == "from"@ || name == "to"@
}

/// A value looks like an issue key that may not be disclosed.
pub open spec fn hidden_value(value: JsonView, disclosable: Set<Seq<char>>) -> bool {
    match value {
        JsonView::Text(s) => key_like(s) && !admits(disclosable, s),
        _ => false,
    }
}

/// A change with its hidden values redacted.
pub open spec fn redacted_change(change: JsonView, disclosable: Set<Seq<char>>) -> JsonView {
    match change {
        JsonView::Object(m) => JsonView::Object(
            Map::new(
                |name: Seq<char>| m.dom().contains(name),
                |name: Seq<char>|
                    if change_value(name) && hidden_value(m[name], disclosable) {
                        JsonView::Text("[redacted]"@)
                    } else {
                        m[name]
                    },
            ),
        ),
        _ => change,
    }
}

/// A list of changes, each redacted.
pub open spec fn redacted_changes(
    changes: Seq<JsonView>,
    disclosable: Set<Seq<char>>,
) -> Seq<JsonView> {
    Seq::new(changes.len(), |i: int| redacted_change(changes[i], disclosable))
}

/// An entry of a changelog with the changes under `items` redacted.
pub open spec fn redacted_entry(history: JsonView, disclosable: Set<Seq<char>>) -> JsonView {
    match history {
        JsonView::Object(m) => match history.items_at("items"@) {
            Some(changes) => JsonView::Object(
                m.insert("items"@, JsonView::Array(redacted_changes(changes, disclosable))),
            ),
            None => history,
        },
        _ => history,
    }
}

/// The entries of a changelog, each redacted.
pub open spec fn redacted_entries(
    entries: Seq<JsonView>,
    disclosable: Set<Seq<char>>,
) -> Seq<JsonView> {
    Seq::new(entries.len(), |i: int| redacted_entry(entries[i], disclosable))
}

/// The members of a changelog with the entries under `name` redacted, where
/// there is a list of them.
pub open spec fn with_redacted(
    members: Map<Seq<char>, JsonView>,
    name: Seq<char>,
    disclosable: Set<Seq<char>>,
) -> Map<Seq<char>, JsonView> {
    match JsonView::Object(members).items_at(name) {
        Some(entries) => members.insert(
            name,
            JsonView::Array(redacted_entries(entries, disclosable)),
        ),
        None => members,
    }
}

/// A changelog with the hidden values of its changes redacted. Its entries are
/// under `values` or `histories`; where it has both, both are redacted.
pub open spec fn redacted(changelog: JsonView, disclosable: Set<Seq<char>>) -> JsonView {
    match changelog {
        JsonView::Object(m) => JsonView::Object(
            with_redacted(with_redacted(m, "values"@, disclosable), "histories"@, disclosable),
        ),
        _ => changelog,
    }
}

fn is_hidden_value(value: Option<&Json>, disclosable: &KeySet) -> (res: bool)
    ensures
        res == match value {
            Some(v) => hidden_value(v@, disclosable@),
            None => false,
        },
{
    match value {
        Some(Json::Text(s)) => looks_like_issue_key(s.as_str()) && !disclosable.admits_key(
            s.as_str(),
        ),
        _ => false,
    }
}

fn redact_value(change: &mut Members, name: &str, disclosable: &KeySet)
    ensures
        final(change)@ == if old(change)@.dom().contains(name@) && hidden_value(
            old(change)@[name@],
            disclosable@,
        ) {
            old(change)@.insert(name@, JsonView::Text("[redacted]"@))
        } else {
            old(change)@
        },
{
    if is_hidden_value(change.get(name), disclosable) {
        change.insert(name, Json::text("[redacted]"));
    }
}

fn redact_change(change: &Json, disclosable: &KeySet) -> (res: Json)
    ensures
        res@ == redacted_change(change@, disclosable@),
{
    match change {
        Json::Object(members) => {
            let mut out = members.clone();
            redact_value(&mut out, "fromString", disclosable);
            redact_value(&mut out, "toString", disclosable);
            redact_value(&mut out, "from", disclosable);
            redact_value(&mut out, "to", disclosable);
            proof {
                reveal_strlit("fromString");
                reveal_strlit("toString");
                reveal_strlit("from");
                reveal_strlit("to");
                assert("fromString"@.len() == 10 && "toString"@.len() == 8 && "from"@.len() == 4
                    && "to"@.len() == 2);
                assert(out@ =~= redacted_change(change@, disclosable@)->Object_0);
            }
            Json::Object(out)
        },
        _ => change.clone(),
    }
}

fn redact_changes(changes: &Vec<Json>, disclosable: &KeySet) -> (res: Vec<Json>)
    ensures
        items_view(res@) == redacted_changes(items_view(changes@), disclosable@),
{
    let ghost views = items_view(changes@);
    let mut out: Vec<Json> = Vec::new();
    let mut i: usize = 0;
    while i < changes.len()
        invariant
            i <= changes.len(),
            views == items_view(changes@),
            out.len() == i,
            forall|j: int|
                0 <= j < i ==> (#[trigger] out@[j])@ == redacted_change(views[j], disclosable@),
        decreases changes.len() - i,
    {
        assert(changes@[i as int]@ == views[i as int]);
        out.push(redact_change(&changes[i], disclosable));
        i += 1;
    }
    assert(items_view(out@) =~= redacted_changes(views, disclosable@));
    out
}

fn redact_entry(history: &Json, disclosable: &KeySet) -> (res: Json)
    ensures
        res@ == redacted_entry(history@, disclosable@),
{
    match history {
        Json::Object(members) => {
            let changes = match members.get("items") {
                Some(Json::Array(items)) => redact_changes(items, disclosable),
                _ => return history.clone(),
            };
            let mut out = members.clone();
            out.insert("items", Json::Array(changes));
            Json::Object(out)
        },
        _ => history.clone(),
    }
}

fn redact_entries(entries: &Vec<Json>, disclosable: &KeySet) -> (res: Vec<Json>)
    ensures
        items_view(res@) == redacted_entries(items_view(entries@), disclosable@),
{
    let ghost views = items_view(entries@);
    let mut out: Vec<Json> = Vec::new();
    let mut i: usize = 0;
    while i < entries.len()
        invariant
            i <= entries.len(),
            views == items_view(entries@),
            out.len() == i,
            forall|j: int|
                0 <= j < i ==> (#[trigger] out@[j])@ == redacted_entry(views[j], disclosable@),
        decreases entries.len() - i,
    {
        assert(entries@[i as int]@ == views[i as int]);
        out.push(redact_entry(&entries[i], disclosable));
        i += 1;
    }
    assert(items_view(out@) =~= redacted_entries(views, disclosable@));
    out
}

/// Redacts the entries under `name`, where there is a list of them.
fn redact_list(changelog: &mut Members, name: &str, disclosable: &KeySet)
    ensures
        final(changelog)@ == with_redacted(old(changelog)@, name@, disclosable@),
{
    let entries = match changelog.get(name) {
        Some(Json::Array(entries)) => redact_entries(entries, disclosable),
        _ => return,
    };
    changelog.insert(name, Json::Array(entries));
}

impl Guard {
    /// Redacts the values of a changelog that look like issue keys and may not
    /// be disclosed.
    pub fn scrub_changelog(changelog: &Json, disclosable: &KeySet) -> (res: Json)
        ensures
            res@ == redacted(changelog@, disclosable@),
    {
        match changelog {
            Json::Object(members) => {
                let mut out = members.clone();
                redact_list(&mut out, "values", disclosable);
                redact_list(&mut out, "histories", disclosable);
                Json::Object(out)
            },
            _ => changelog.clone(),
        }
    }
}

/// A change in the list `list` of a changelog, where there is one at that
/// place.
pub open spec fn change_at(changelog: JsonView, list: Seq<char>, entry: int, change: int) -> Option<
    JsonView,
> {
    match changelog.items_at(list) {
        Some(entries) => if 0 <= entry < entries.len() {
            match entries[entry].items_at("items"@) {
                Some(changes) => if 0 <= change < changes.len() {
                    Some(changes[change])
                } else {
                    None
                },
                None => None,
            }
        } else {
            None
        },
        None => None,
    }
}

proof fn lemma_redaction_is_no_key()
    ensures
        !key_like("[redacted]"@),
{
    reveal_strlit("[redacted]");
    let t = "[redacted]"@;
    assert(t.len() == 10 && t[0] == '[' && t[9] == ']');
    assert(trimmed(t) == t);
    assert forall|k: int| !hyphen_at(trimmed(t), k) by {
        if hyphen_at(trimmed(t), k) {
            assert(ascii_alphanumeric(t[0]));
        }
    }
}

/// No value in a redacted changelog looks like an issue key that may not be
/// disclosed.
pub proof fn redacted_changelog_names_only_disclosable(
    changelog: JsonView,
    disclosable: Set<Seq<char>>,
    list: Seq<char>,
    entry: int,
    change: int,
    name: Seq<char>,
)
    requires
        list == "values"@ || list == "histories"@,
        change_value(name),
        change_at(redacted(changelog, disclosable), list, entry, change) is Some,
    ensures
        change_at(redacted(changelog, disclosable), list, entry, change)->0.text_at(name) matches Some(
            s,
        ) ==> key_like(s) ==> admits(disclosable, s),
{
    lemma_redaction_is_no_key();
    reveal_strlit("values");
    reveal_strlit("histories");
    assert("values"@.len() == 6 && "histories"@.len() == 9);
}

} // verus!
