//! What is kept: references to issues that may be seen, values of a changelog
//! that name them, and all that has nothing to do with other issues.

use vstd::prelude::*;
use vstd::string::*;

use crate::guard::{distinct_keys, fetch_list};
use crate::json::JsonView;
use crate::keyset::{admits, ascending, lemma_insert_ascending, sorted};
use crate::scrub::{
    ascii_alphanumeric, ascii_digit, custom_names, custom_names_at, hidden, hyphen_at, key_like,
    listed, names, redacted, redacted_change, redacted_changes, redacted_entries, redacted_entry,
    referring, refers_to, scrubbed, scrubbed_lists, scrubbing_keeps_what_is_disclosable, servable,
    some_names, undisclosed, with_redacted, with_servable, Reference,
};
use crate::text::{
    before, lemma_before_irreflexive, lemma_before_total, lemma_before_transitive, trimmed,
};

verus! {

// --- the order in which keys are assessed -----------------------------------

/// The texts of a finite set can be put in order.
proof fn lemma_can_be_sorted(set: Set<Seq<char>>)
    requires
        set.finite(),
    ensures
        exists|list: Seq<Seq<char>>| #[trigger] ascending(list) && list.to_set() == set,
    decreases set.len(),
{
    if set.len() == 0 {
        let none = Seq::<Seq<char>>::empty();
        assert(ascending(none));
        assert(none.to_set() =~= set);
    } else {
        let key = set.choose();
        let rest = set.remove(key);
        lemma_can_be_sorted(rest);
        let list = choose|list: Seq<Seq<char>>| #[trigger]
            ascending(list) && list.to_set() == rest;
        lemma_placed(list, key);
        let i = choose|i: int| #[trigger] placed(list, key, i);
        lemma_insert_ascending(list, i, key);
        let more = list.insert(i, key);
        assert forall|t: Seq<char>| #[trigger] more.to_set().contains(t) == set.contains(t) by {
            if more.contains(t) {
                let j = choose|j: int| 0 <= j < more.len() && more[j] == t;
                if j != i {
                    let x = if j < i {
                        j
                    } else {
                        j - 1
                    };
                    assert(list[x] == t);
                    assert(list.to_set().contains(t));
                }
            }
            if set.contains(t) {
                if t == key {
                    assert(more[i] == key);
                } else {
                    assert(rest.contains(t));
                    assert(list.to_set().contains(t));
                    let j = choose|j: int| 0 <= j < list.len() && list[j] == t;
                    assert(more[if j < i {
                        j
                    } else {
                        j + 1
                    }] == t);
                }
            }
        }
        assert(more.to_set() =~= set);
    }
}

/// The place where a text belongs in an ordered list.
spec fn placed(list: Seq<Seq<char>>, key: Seq<char>, i: int) -> bool {
    &&& 0 <= i <= list.len()
    &&& forall|k: int| 0 <= k < i ==> before(#[trigger] list[k], key)
    &&& i < list.len() ==> before(key, list[i])
}

proof fn lemma_placed(list: Seq<Seq<char>>, key: Seq<char>)
    requires
        ascending(list),
        !list.to_set().contains(key),
    ensures
        exists|i: int| #[trigger] placed(list, key, i),
    decreases list.len(),
{
    if list.len() == 0 {
        assert(placed(list, key, 0));
    } else {
        let rest = list.drop_last();
        assert forall|i: int, j: int| 0 <= i < j < rest.len() implies before(
            #[trigger] rest[i],
            #[trigger] rest[j],
        ) by {
            assert(before(list[i], list[j]));
        }
        if rest.contains(key) {
            let j = choose|j: int| 0 <= j < rest.len() && rest[j] == key;
            assert(list[j] == key);
        }
        lemma_placed(rest, key);
        let i = choose|i: int| #[trigger] placed(rest, key, i);
        let last = list[list.len() - 1];
        assert(list.contains(last));
        lemma_before_total(last, key);
        if i < rest.len() {
            assert(rest[i] == list[i]);
            assert forall|k: int| 0 <= k < i implies before(#[trigger] list[k], key) by {
                assert(rest[k] == list[k]);
            }
            assert(placed(list, key, i));
        } else {
            assert forall|k: int| 0 <= k < rest.len() implies before(#[trigger] list[k], key) by {
                assert(rest[k] == list[k]);
            }
            if before(last, key) {
                assert(placed(list, key, list.len() as int));
            } else {
                assert(placed(list, key, list.len() - 1));
            }
        }
    }
}

pub(crate) proof fn lemma_sorted_set(set: Set<Seq<char>>)
    requires
        set.finite(),
    ensures
        ascending(sorted(set)),
        sorted(set).to_set() == set,
{
    lemma_can_be_sorted(set);
}

/// Fewer than twenty-five of the keys come before this one.
pub open spec fn among_the_first(keys: Set<Seq<char>>, key: Seq<char>) -> bool {
    keys.filter(|k: Seq<char>| before(k, key)).len() < 25
}

proof fn lemma_distinct_grow(keys: Seq<Seq<char>>, i: int)
    requires
        0 <= i <= keys.len(),
    ensures
        distinct_keys(keys.take(i)).len() <= i,
        distinct_keys(keys.take(i)).len() <= distinct_keys(keys).len(),
        distinct_keys(keys).take(distinct_keys(keys.take(i)).len() as int) == distinct_keys(
            keys.take(i),
        ),
    decreases keys.len(),
{
    if i == keys.len() {
        assert(keys.take(i) =~= keys);
        assert(distinct_keys(keys).take(distinct_keys(keys).len() as int) =~= distinct_keys(keys));
        lemma_distinct_len(keys);
    } else {
        let rest = keys.drop_last();
        lemma_distinct_grow(rest, i);
        assert(rest.take(i) =~= keys.take(i));
        let less = distinct_keys(keys.take(i)).len() as int;
        assert(distinct_keys(keys).take(less) =~= distinct_keys(rest).take(less));
    }
}

pub(crate) proof fn lemma_distinct_len(keys: Seq<Seq<char>>)
    ensures
        distinct_keys(keys).len() <= keys.len(),
    decreases keys.len(),
{
    if keys.len() > 0 {
        lemma_distinct_len(keys.drop_last());
    }
}

/// A key among the first of a set is fetched when the set is assessed.
pub(crate) proof fn lemma_first_are_fetched(set: Set<Seq<char>>, key: Seq<char>)
    requires
        set.finite(),
        set.contains(key),
        trimmed(key).len() > 0,
        among_the_first(set, key),
    ensures
        fetch_list(sorted(set)).contains(trimmed(key)),
        sorted(set).contains(key),
{
    lemma_sorted_set(set);
    let list = sorted(set);
    assert(list.to_set().contains(key));
    let p = choose|p: int| 0 <= p < list.len() && list[p] == key;
    // Exactly those before it in the list come before it.
    let earlier = list.take(p);
    let smaller = set.filter(|k: Seq<char>| before(k, key));
    assert forall|t: Seq<char>| #[trigger] earlier.to_set().contains(t) == smaller.contains(t) by {
        if earlier.contains(t) {
            let j = choose|j: int| 0 <= j < earlier.len() && earlier[j] == t;
            assert(list[j] == t);
            assert(before(list[j], list[p]));
            assert(list.to_set().contains(t));
        }
        if smaller.contains(t) {
            assert(list.to_set().contains(t));
            let j = choose|j: int| 0 <= j < list.len() && list[j] == t;
            if j == p {
                lemma_before_irreflexive(key);
            } else if j > p {
                assert(before(list[p], list[j]));
                lemma_before_transitive(key, t, key);
                lemma_before_irreflexive(key);
            }
            assert(earlier[j] == t);
        }
    }
    assert(earlier.to_set() =~= smaller);
    assert(earlier.no_duplicates()) by {
        assert forall|a: int, b: int|
            0 <= a < earlier.len() && 0 <= b < earlier.len() && a != b implies earlier[a]
            != earlier[b] by {
            if a < b {
                assert(before(list[a], list[b]));
                lemma_before_irreflexive(list[a]);
            } else {
                assert(before(list[b], list[a]));
                lemma_before_irreflexive(list[a]);
            }
        }
    }
    earlier.unique_seq_to_set();
    assert(p < 25);
    // So it is among the keys that are fetched.
    let upto = list.take(p + 1);
    lemma_distinct_grow(list, p + 1);
    assert(upto.drop_last() =~= earlier);
    assert(upto.last() == key);
    let part = distinct_keys(upto);
    assert(part.contains(trimmed(key))) by {
        let held = distinct_keys(earlier);
        if !held.contains(trimmed(key)) {
            assert(part == held.push(trimmed(key)));
            assert(part[held.len() as int] == trimmed(key));
        }
    }
    let q = choose|q: int| 0 <= q < part.len() && part[q] == trimmed(key);
    assert(part.len() <= 25);
    let all = distinct_keys(list);
    assert(all.take(part.len() as int)[q] == all[q]);
    assert(fetch_list(list)[q] == all[q]);
}

// --- the shape of an issue key ----------------------------------------------

/// Letters and digits of ASCII, at least one.
pub open spec fn plain_word(s: Seq<char>) -> bool {
    s.len() > 0 && forall|i: int|
        0 <= i < s.len() ==> ('0' <= #[trigger] s[i] <= '9' || 'A' <= s[i] <= 'Z' || 'a' <= s[i]
            <= 'z')
}

/// Digits, at least one.
pub open spec fn number(s: Seq<char>) -> bool {
    s.len() > 0 && forall|i: int| 0 <= i < s.len() ==> '0' <= #[trigger] s[i] <= '9'
}

/// A project and a number with a hyphen between them, as in `ABC-123`.
pub open spec fn key_of_parts(project: Seq<char>, rest: Seq<char>, key: Seq<char>) -> bool {
    plain_word(project) && number(rest) && key == project + seq!['-'] + rest
}

/// A text is taken for an issue key exactly where it is a word, a hyphen and a
/// number, white space around them aside.
pub proof fn a_key_is_a_word_and_a_number(s: Seq<char>)
    ensures
        key_like(s) <==> exists|project: Seq<char>, rest: Seq<char>| #[trigger]
            key_of_parts(project, rest, trimmed(s)),
{
    let t = trimmed(s);
    if key_like(s) {
        let k = choose|k: int| hyphen_at(t, k);
        let project = t.take(k);
        let rest = t.skip(k + 1);
        assert forall|i: int| 0 <= i < project.len() implies ('0' <= #[trigger] project[i] <= '9'
            || 'A' <= project[i] <= 'Z' || 'a' <= project[i] <= 'z') by {
            assert(ascii_alphanumeric(t[i]));
        }
        assert forall|i: int| 0 <= i < rest.len() implies '0' <= #[trigger] rest[i] <= '9' by {
            assert(ascii_digit(t[i + k + 1]));
        }
        assert(t =~= project + seq!['-'] + rest);
        assert(key_of_parts(project, rest, t));
    }
    if exists|project: Seq<char>, rest: Seq<char>| #[trigger] key_of_parts(project, rest, t) {
        let (project, rest) = choose|project: Seq<char>, rest: Seq<char>| #[trigger]
            key_of_parts(project, rest, t);
        let k = project.len() as int;
        assert forall|i: int| 0 <= i < k implies ascii_alphanumeric(#[trigger] t[i]) by {
            assert(t[i] == project[i]);
        }
        assert forall|i: int| k < i < t.len() implies ascii_digit(#[trigger] t[i]) by {
            assert(t[i] == rest[i - k - 1]);
        }
        assert(t[k] == '-');
        assert(hyphen_at(t, k));
    }
}

// --- references -------------------------------------------------------------

/// The key on one side of a link.
pub open spec fn side(link: JsonView, name: Seq<char>) -> Option<Seq<char>> {
    link.text_at2(name, "key"@)
}

/// A link has the issue on one of its sides.
pub open spec fn links_to(link: JsonView, key: Seq<char>) -> bool {
    side(link, "inwardIssue"@) == Some(key) || side(link, "outwardIssue"@) == Some(key)
}

/// The elements of a field that is a list.
pub open spec fn elements(fields: JsonView, name: Seq<char>) -> Seq<JsonView> {
    match fields.items_at(name) {
        Some(items) => items,
        None => Seq::empty(),
    }
}

/// A declared link field of the issue holds the key.
pub open spec fn declared_link(fields: JsonView, name: Seq<char>, key: Seq<char>) -> bool {
    fields.text_at(name) is Some && key_like(fields.text_at(name)->0) && trimmed(
        fields.text_at(name)->0,
    ) == key
}

/// The fields of an issue mention another: in a link, as the parent, as a
/// subtask, or in a declared link field.
pub open spec fn mentions(fields: JsonView, custom: Seq<Seq<char>>, key: Seq<char>) -> bool {
    ||| exists|i: int|
        0 <= i < elements(fields, "issuelinks"@).len() && links_to(
            #[trigger] elements(fields, "issuelinks"@)[i],
            key,
        )
    ||| fields.text_at2("parent"@, "key"@) == Some(key)
    ||| exists|i: int|
        0 <= i < elements(fields, "subtasks"@).len() && (#[trigger] elements(
            fields,
            "subtasks"@,
        )[i]).text_at("key"@) == Some(key)
    ||| exists|i: int| 0 <= i < custom.len() && declared_link(fields, #[trigger] custom[i], key)
}

/// An issue mentions another in its fields, or in itself where it has none.
pub open spec fn issue_mentions(issue: JsonView, custom: Seq<Seq<char>>, key: Seq<char>) -> bool {
    mentions(
        match issue.get("fields"@) {
            Some(fields) => fields,
            None => issue,
        },
        custom,
        key,
    )
}

pub(crate) proof fn lemma_mentions(issue: JsonView, custom: Seq<Seq<char>>, key: Seq<char>)
    ensures
        issue_mentions(issue, custom, key) == refers_to(issue, custom, key),
{
    let fields = referring(issue);
    let links = listed(fields, "issuelinks"@);
    let subtasks = listed(fields, "subtasks"@);
    assert(links == elements(fields, "issuelinks"@));
    assert(subtasks == elements(fields, "subtasks"@));
    if some_names(Reference::Link, links, key) {
        let i = choose|i: int|
            0 <= i < links.len() && names(Reference::Link, #[trigger] links[i], key);
        assert(links_to(elements(fields, "issuelinks"@)[i], key));
    }
    if exists|i: int|
        0 <= i < elements(fields, "issuelinks"@).len() && links_to(
            #[trigger] elements(fields, "issuelinks"@)[i],
            key,
        ) {
        let i = choose|i: int|
            0 <= i < elements(fields, "issuelinks"@).len() && links_to(
                #[trigger] elements(fields, "issuelinks"@)[i],
                key,
            );
        assert(names(Reference::Link, links[i], key));
    }
    if some_names(Reference::Subtask, subtasks, key) {
        let i = choose|i: int|
            0 <= i < subtasks.len() && names(Reference::Subtask, #[trigger] subtasks[i], key);
        assert(elements(fields, "subtasks"@)[i].text_at("key"@) == Some(key));
    }
    if exists|i: int|
        0 <= i < elements(fields, "subtasks"@).len() && (#[trigger] elements(
            fields,
            "subtasks"@,
        )[i]).text_at("key"@) == Some(key) {
        let i = choose|i: int|
            0 <= i < elements(fields, "subtasks"@).len() && (#[trigger] elements(
                fields,
                "subtasks"@,
            )[i]).text_at("key"@) == Some(key);
        assert(names(Reference::Subtask, subtasks[i], key));
    }
    if custom_names(fields, custom, key) {
        let i = choose|i: int|
            0 <= i < custom.len() && custom_names_at(fields, #[trigger] custom[i], key);
        assert(declared_link(fields, custom[i], key));
    }
    if exists|i: int| 0 <= i < custom.len() && declared_link(fields, #[trigger] custom[i], key) {
        let i = choose|i: int|
            0 <= i < custom.len() && declared_link(fields, #[trigger] custom[i], key);
        assert(custom_names_at(fields, custom[i], key));
    }
}

/// A text that may be missing.
spec fn or_empty(text: Option<Seq<char>>) -> Seq<char> {
    match text {
        Some(t) => t,
        None => Seq::empty(),
    }
}

/// An issue mentions only so many others.
pub(crate) proof fn lemma_mentions_finite(issue: JsonView, custom: Seq<Seq<char>>)
    ensures
        Set::new(|k: Seq<char>| issue_mentions(issue, custom, k)).finite(),
{
    let fields = match issue.get("fields"@) {
        Some(fields) => fields,
        None => issue,
    };
    let links = elements(fields, "issuelinks"@);
    let subtasks = elements(fields, "subtasks"@);
    let inward = Seq::new(links.len(), |i: int| or_empty(side(links[i], "inwardIssue"@)));
    let outward = Seq::new(links.len(), |i: int| or_empty(side(links[i], "outwardIssue"@)));
    let below = Seq::new(subtasks.len(), |i: int| or_empty(subtasks[i].text_at("key"@)));
    let above = seq![or_empty(fields.text_at2("parent"@, "key"@))];
    let apart = Seq::new(custom.len(), |i: int| trimmed(or_empty(fields.text_at(custom[i]))));
    let all = inward + outward + below + above + apart;
    let set = Set::new(|k: Seq<char>| issue_mentions(issue, custom, k));
    assert forall|k: Seq<char>| #[trigger] set.contains(k) implies all.to_set().contains(k) by {
        let a = inward.len() as int;
        let b = a + outward.len();
        let c = b + below.len();
        if exists|i: int| 0 <= i < links.len() && links_to(#[trigger] links[i], k) {
            let i = choose|i: int| 0 <= i < links.len() && links_to(#[trigger] links[i], k);
            if side(links[i], "inwardIssue"@) == Some(k) {
                assert(all[i] == k);
            } else {
                assert(all[a + i] == k);
            }
        } else if fields.text_at2("parent"@, "key"@) == Some(k) {
            assert(all[c] == k);
        } else if exists|i: int|
            0 <= i < subtasks.len() && (#[trigger] subtasks[i]).text_at("key"@) == Some(k) {
            let i = choose|i: int|
                0 <= i < subtasks.len() && (#[trigger] subtasks[i]).text_at("key"@) == Some(k);
            assert(all[b + i] == k);
        } else {
            let i = choose|i: int|
                0 <= i < custom.len() && declared_link(fields, #[trigger] custom[i], k);
            assert(all[c + 1 + i] == k);
        }
    }
    vstd::seq_lib::seq_to_set_is_finite(all);
    vstd::set_lib::lemma_set_subset_finite(all.to_set(), set);
}

// --- what scrubbing keeps ---------------------------------------------------

/// No declared link field is one that has another meaning to the guard.
pub open spec fn plain_fields(custom: Seq<Seq<char>>) -> bool {
    &&& !custom.contains("issuelinks"@)
    &&& !custom.contains("parent"@)
    &&& !custom.contains("subtasks"@)
    &&& !custom.contains("attachment"@)
    &&& !custom.contains("comment"@)
    &&& !custom.contains("worklog"@)
}

/// A key is seen where there is one.
pub open spec fn free(key: Option<Seq<char>>, seen: spec_fn(Seq<char>) -> bool) -> bool {
    key is Some ==> seen(key->0)
}

/// The value of a declared link field is unset, or a key that is seen.
pub open spec fn free_value(value: JsonView, seen: spec_fn(Seq<char>) -> bool) -> bool {
    value is Null || (value matches JsonView::Text(s) && key_like(s) && seen(trimmed(s)))
}

/// The references of one set of fields are kept in another wherever every issue
/// that they mention is seen; and no list of them has anything new.
pub open spec fn keeps_references(
    whole: JsonView,
    kept: JsonView,
    custom: Seq<Seq<char>>,
    seen: spec_fn(Seq<char>) -> bool,
) -> bool {
    &&& forall|i: int|
        0 <= i < elements(whole, "issuelinks"@).len() && free(
            side(elements(whole, "issuelinks"@)[i], "inwardIssue"@),
            seen,
        ) && free(side(elements(whole, "issuelinks"@)[i], "outwardIssue"@), seen) ==> elements(
            kept,
            "issuelinks"@,
        ).contains(#[trigger] elements(whole, "issuelinks"@)[i])
    &&& forall|i: int|
        0 <= i < elements(whole, "subtasks"@).len() && free(
            elements(whole, "subtasks"@)[i].text_at("key"@),
            seen,
        ) ==> elements(kept, "subtasks"@).contains(#[trigger] elements(whole, "subtasks"@)[i])
    &&& forall|i: int|
        0 <= i < elements(kept, "issuelinks"@).len() ==> elements(whole, "issuelinks"@).contains(
            #[trigger] elements(kept, "issuelinks"@)[i],
        )
    &&& forall|i: int|
        0 <= i < elements(kept, "subtasks"@).len() ==> elements(whole, "subtasks"@).contains(
            #[trigger] elements(kept, "subtasks"@)[i],
        )
    &&& free(whole.text_at2("parent"@, "key"@), seen) ==> kept.get("parent"@) == whole.get(
        "parent"@,
    )
    &&& forall|i: int|
        0 <= i < custom.len() && whole.get(#[trigger] custom[i]) is Some && free_value(
            whole.get(custom[i])->0,
            seen,
        ) ==> kept.get(custom[i]) == whole.get(custom[i])
}

/// A field that may hold a reference to another issue.
pub open spec fn refers(custom: Seq<Seq<char>>, name: Seq<char>) -> bool {
    name == "issuelinks"@ || name == "parent"@ || name == "subtasks"@ || custom.contains(name)
}

/// What is kept of an issue is all of it, but for references to issues that are
/// not seen.
pub open spec fn keeps_the_issue(
    whole: JsonView,
    kept: JsonView,
    custom: Seq<Seq<char>>,
    seen: spec_fn(Seq<char>) -> bool,
) -> bool {
    &&& forall|name: Seq<char>|
        name != "fields"@ ==> #[trigger] kept.get(name) == whole.get(name)
    &&& kept.get("fields"@) is Some == whole.get("fields"@) is Some
    &&& whole.get("fields"@) matches Some(JsonView::Object(_)) ==> {
        let before = whole.get("fields"@)->0;
        let after = kept.get("fields"@)->0;
        &&& keeps_references(before, after, custom, seen)
        &&& forall|name: Seq<char>|
            !refers(custom, name) ==> #[trigger] after.get(name) == before.get(name)
    }
}

proof fn lemma_reference_fields()
    ensures
        "issuelinks"@ != "parent"@,
        "issuelinks"@ != "subtasks"@,
        "parent"@ != "subtasks"@,
{
    reveal_strlit("issuelinks");
    reveal_strlit("parent");
    reveal_strlit("subtasks");
    assert("issuelinks"@.len() == 10);
    assert("parent"@.len() == 6);
    assert("subtasks"@.len() == 8);
}

/// An issue is scrubbed of nothing but references to issues that may not be
/// disclosed: a link, a subtask, the parent and a declared link field stay where
/// all the issues that they mention may be, and so does everything else.
pub proof fn scrubbing_takes_out_hidden_references_alone(
    issue: JsonView,
    custom: Seq<Seq<char>>,
    disclosable: Set<Seq<char>>,
    seen: spec_fn(Seq<char>) -> bool,
)
    requires
        plain_fields(custom),
        forall|k: Seq<char>| #[trigger] seen(k) ==> admits(disclosable, k),
    ensures
        keeps_the_issue(issue, scrubbed(issue, custom, disclosable), custom, seen),
{
    lemma_reference_fields();
    let out = scrubbed(issue, custom, disclosable);
    assert forall|name: Seq<char>| name != "fields"@ implies #[trigger] out.get(name)
        == issue.get(name) by {
        crate::scrub::scrubbing_keeps_the_rest(issue, custom, disclosable, name);
    }
    if let Some(JsonView::Object(fields)) = issue.get("fields"@) {
        let whole = JsonView::Object(fields);
        let lists = scrubbed_lists(fields, disclosable);
        let kept = out.get("fields"@)->0;
        assert(kept == JsonView::Object(with_servable(lists, custom, disclosable)));
        assert forall|name: Seq<char>| !refers(custom, name) implies #[trigger] kept.get(name)
            == whole.get(name) by {
            crate::scrub::scrubbing_keeps_the_rest(issue, custom, disclosable, name);
        }
        let links = elements(whole, "issuelinks"@);
        assert(links == listed(whole, "issuelinks"@));
        assert forall|i: int|
            0 <= i < links.len() && free(side(links[i], "inwardIssue"@), seen) && free(
                side(links[i], "outwardIssue"@),
                seen,
            ) implies elements(kept, "issuelinks"@).contains(#[trigger] links[i]) by {
            assert(!hidden(Reference::Link, links[i], disclosable));
            scrubbing_keeps_what_is_disclosable(issue, custom, disclosable, Reference::Link, i);
            assert(listed(kept, "issuelinks"@) == elements(kept, "issuelinks"@));
        }
        let below = elements(whole, "subtasks"@);
        assert(below == listed(whole, "subtasks"@));
        assert forall|i: int|
            0 <= i < below.len() && free(below[i].text_at("key"@), seen) implies elements(
            kept,
            "subtasks"@,
        ).contains(#[trigger] below[i]) by {
            assert(!hidden(Reference::Subtask, below[i], disclosable));
            scrubbing_keeps_what_is_disclosable(
                issue,
                custom,
                disclosable,
                Reference::Subtask,
                i,
            );
            assert(listed(kept, "subtasks"@) == elements(kept, "subtasks"@));
        }
        lemma_no_new(whole, kept, fields, custom, disclosable);
        if free(whole.text_at2("parent"@, "key"@), seen) {
            assert(!undisclosed(whole.text_at2("parent"@, "key"@), disclosable));
            assert(kept.get("parent"@) == whole.get("parent"@));
        }
        assert forall|i: int|
            0 <= i < custom.len() && whole.get(#[trigger] custom[i]) is Some && free_value(
                whole.get(custom[i])->0,
                seen,
            ) implies kept.get(custom[i]) == whole.get(custom[i]) by {
            assert(custom.contains(custom[i]));
            assert(servable(fields[custom[i]], disclosable));
            assert(lists.dom().contains(custom[i]));
            assert(lists[custom[i]] == fields[custom[i]]);
        }
    }
}

proof fn lemma_no_new(
    whole: JsonView,
    kept: JsonView,
    fields: Map<Seq<char>, JsonView>,
    custom: Seq<Seq<char>>,
    disclosable: Set<Seq<char>>,
)
    requires
        plain_fields(custom),
        whole == JsonView::Object(fields),
        kept == JsonView::Object(
            with_servable(scrubbed_lists(fields, disclosable), custom, disclosable),
        ),
    ensures
        forall|i: int|
            0 <= i < elements(kept, "issuelinks"@).len() ==> elements(
                whole,
                "issuelinks"@,
            ).contains(#[trigger] elements(kept, "issuelinks"@)[i]),
        forall|i: int|
            0 <= i < elements(kept, "subtasks"@).len() ==> elements(whole, "subtasks"@).contains(
                #[trigger] elements(kept, "subtasks"@)[i],
            ),
{
    lemma_reference_fields();
    let links = elements(whole, "issuelinks"@);
    let below = elements(whole, "subtasks"@);
    let linked = links.filter(crate::scrub::shown(Reference::Link, disclosable));
    let children = below.filter(crate::scrub::shown(Reference::Subtask, disclosable));
    assert(elements(kept, "issuelinks"@) == if whole.items_at("issuelinks"@) is Some {
        linked
    } else {
        Seq::empty()
    });
    assert(elements(kept, "subtasks"@) == if whole.items_at("subtasks"@) is Some {
        children
    } else {
        Seq::empty()
    });
    assert forall|i: int| 0 <= i < linked.len() implies links.contains(#[trigger] linked[i]) by {
        links.lemma_filter_contains_rev(
            crate::scrub::shown(Reference::Link, disclosable),
            linked[i],
        );
    }
    assert forall|i: int| 0 <= i < children.len() implies below.contains(
        #[trigger] children[i],
    ) by {
        below.lemma_filter_contains_rev(
            crate::scrub::shown(Reference::Subtask, disclosable),
            children[i],
        );
    }
}

// --- what redaction keeps ---------------------------------------------------

/// A value of a change looks like the key of an issue that is not seen.
pub open spec fn may_be_hidden(
    name: Seq<char>,
    value: JsonView,
    seen: spec_fn(Seq<char>) -> bool,
) -> bool {
    &&& name == "from"@ || name == "to"@ || name == "fromString"@ || name == "toString"@
    &&& value matches JsonView::Text(s) && key_like(s) && !seen(s)
}

/// A value of a change is kept: it does not look like an issue key, or it is the
/// key of an issue that is seen.
pub open spec fn keeps_values(
    change: JsonView,
    kept: JsonView,
    seen: spec_fn(Seq<char>) -> bool,
) -> bool {
    forall|name: Seq<char>| #[trigger]
        change.get(name) is Some ==> {
            let value = change.get(name)->0;
            !may_be_hidden(name, value, seen) ==> kept.get(name) == Some(value)
        }
}

/// Every entry of one list is in the other at the same place, and so is every
/// change of it; in the changes, values are kept, and beside them everything.
pub open spec fn keeps_entries(
    entries: Seq<JsonView>,
    kept: Seq<JsonView>,
    seen: spec_fn(Seq<char>) -> bool,
) -> bool {
    &&& entries.len() == kept.len()
    &&& forall|i: int|
        0 <= i < entries.len() ==> {
            &&& forall|name: Seq<char>|
                name != "items"@ ==> #[trigger] kept[i].get(name) == entries[i].get(name)
            &&& (#[trigger] entries[i]).items_at("items"@) matches Some(changes) ==> {
                &&& kept[i].items_at("items"@) is Some
                &&& kept[i].items_at("items"@)->0.len() == changes.len()
                &&& forall|m: int|
                    0 <= m < changes.len() ==> keeps_values(
                        #[trigger] changes[m],
                        kept[i].items_at("items"@)->0[m],
                        seen,
                    )
            }
        }
}

/// A changelog is kept but for the keys of issues that are not seen.
pub open spec fn keeps_changelog(
    changelog: JsonView,
    kept: JsonView,
    seen: spec_fn(Seq<char>) -> bool,
) -> bool {
    &&& forall|name: Seq<char>|
        name != "values"@ && name != "histories"@ ==> #[trigger] kept.get(name) == changelog.get(
            name,
        )
    &&& forall|name: Seq<char>| #[trigger]
        changelog.items_at(name) is Some && (name == "values"@ || name == "histories"@) ==> {
            &&& kept.items_at(name) is Some
            &&& keeps_entries(changelog.items_at(name)->0, kept.items_at(name)->0, seen)
        }
}

proof fn lemma_keeps_change(
    change: JsonView,
    disclosable: Set<Seq<char>>,
    seen: spec_fn(Seq<char>) -> bool,
)
    requires
        forall|k: Seq<char>| #[trigger] seen(k) ==> admits(disclosable, k),
    ensures
        keeps_values(change, redacted_change(change, disclosable), seen),
{
    let kept = redacted_change(change, disclosable);
    assert forall|name: Seq<char>| #[trigger] change.get(name) is Some implies {
        let value = change.get(name)->0;
        !may_be_hidden(name, value, seen) ==> kept.get(name) == Some(value)
    } by {
        if let JsonView::Text(s) = change.get(name)->0 {
            if seen(s) {
                assert(admits(disclosable, s));
            }
        }
    }
}

proof fn lemma_keeps_entries(
    entries: Seq<JsonView>,
    disclosable: Set<Seq<char>>,
    seen: spec_fn(Seq<char>) -> bool,
)
    requires
        forall|k: Seq<char>| #[trigger] seen(k) ==> admits(disclosable, k),
    ensures
        keeps_entries(entries, redacted_entries(entries, disclosable), seen),
{
    let kept = redacted_entries(entries, disclosable);
    assert forall|i: int| 0 <= i < entries.len() implies {
        &&& forall|name: Seq<char>|
            name != "items"@ ==> #[trigger] kept[i].get(name) == entries[i].get(name)
        &&& (#[trigger] entries[i]).items_at("items"@) matches Some(changes) ==> {
            &&& kept[i].items_at("items"@) is Some
            &&& kept[i].items_at("items"@)->0.len() == changes.len()
            &&& forall|m: int|
                0 <= m < changes.len() ==> keeps_values(
                    #[trigger] changes[m],
                    kept[i].items_at("items"@)->0[m],
                    seen,
                )
        }
    } by {
        assert(kept[i] == redacted_entry(entries[i], disclosable));
        if let Some(changes) = entries[i].items_at("items"@) {
            assert(kept[i].items_at("items"@) == Some(redacted_changes(changes, disclosable)));
            assert forall|m: int| 0 <= m < changes.len() implies keeps_values(
                #[trigger] changes[m],
                kept[i].items_at("items"@)->0[m],
                seen,
            ) by {
                lemma_keeps_change(changes[m], disclosable, seen);
            }
        }
    }
}

/// A changelog is redacted of nothing but the keys of issues that may not be
/// disclosed.
pub proof fn redaction_hides_undisclosed_keys_alone(
    changelog: JsonView,
    disclosable: Set<Seq<char>>,
    seen: spec_fn(Seq<char>) -> bool,
)
    requires
        forall|k: Seq<char>| #[trigger] seen(k) ==> admits(disclosable, k),
    ensures
        keeps_changelog(changelog, redacted(changelog, disclosable), seen),
{
    reveal_strlit("values");
    reveal_strlit("histories");
    assert("values"@.len() == 6);
    assert("histories"@.len() == 9);
    let kept = redacted(changelog, disclosable);
    if let JsonView::Object(m) = changelog {
        let first = with_redacted(m, "values"@, disclosable);
        assert(JsonView::Object(first).items_at("histories"@) == changelog.items_at("histories"@));
        assert forall|name: Seq<char>| #[trigger]
            changelog.items_at(name) is Some && (name == "values"@ || name
                == "histories"@) implies {
            &&& kept.items_at(name) is Some
            &&& keeps_entries(changelog.items_at(name)->0, kept.items_at(name)->0, seen)
        } by {
            let entries = changelog.items_at(name)->0;
            lemma_keeps_entries(entries, disclosable, seen);
            assert(kept.items_at(name) == Some(redacted_entries(entries, disclosable)));
        }
    }
}

/// A declared link field shows the key of an issue that may be disclosed, where
/// it holds that and nothing else; whatever else it holds is taken out of it.
pub proof fn a_declared_link_field_shows_a_key_alone(
    issue: JsonView,
    custom: Seq<Seq<char>>,
    disclosable: Set<Seq<char>>,
    i: int,
)
    requires
        plain_fields(custom),
        0 <= i < custom.len(),
        issue.get("fields"@) matches Some(JsonView::Object(_)),
        issue.get("fields"@)->0.get(custom[i]) is Some,
    ensures
        ({
            let held = issue.get("fields"@)->0.get(custom[i])->0;
            let shown = scrubbed(issue, custom, disclosable).get("fields"@)->0.get(custom[i]);
            if held is Text && key_like(held->Text_0) && admits(
                disclosable,
                trimmed(held->Text_0),
            ) {
                shown == Some(held)
            } else {
                shown == Some(JsonView::Null)
            }
        }),
{
    lemma_reference_fields();
    let fields = issue.get("fields"@)->0->Object_0;
    let lists = scrubbed_lists(fields, disclosable);
    let out = scrubbed(issue, custom, disclosable);
    assert(out.get("fields"@) == Some(
        JsonView::Object(with_servable(lists, custom, disclosable)),
    ));
    assert(custom.contains(custom[i]));
    assert(lists.dom().contains(custom[i]));
    assert(lists[custom[i]] == fields[custom[i]]);
}

/// In a history, a value that looks like a key and may not be disclosed is told
/// as redacted, in each of the places where a change has its values.
pub proof fn a_hidden_value_is_told_as_redacted(
    change: JsonView,
    disclosable: Set<Seq<char>>,
    name: Seq<char>,
)
    requires
        name == "from"@ || name == "to"@ || name == "fromString"@ || name == "toString"@,
        change is Object,
        change.text_at(name) is Some,
        key_like(change.text_at(name)->0),
        !admits(disclosable, change.text_at(name)->0),
    ensures
        redacted_change(change, disclosable).text_at(name) == Some("[redacted]"@),
{
}

} // verus!
