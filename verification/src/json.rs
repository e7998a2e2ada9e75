//! JSON documents: the value type that requests, replies and tool results are
//! made of, and the reading of a reply body.

use vstd::prelude::*;
use vstd::string::*;

use crate::keyset::texts;

verus! {

/// A JSON document as Jira sends and receives it.
#[derive(Debug, PartialEq)]
pub enum Json {
    Null,
    Bool(bool),
    /// A number that fits a `u64`.
    Unsigned(u64),
    /// A negative integer.
    Negative(i64),
    /// Any other number, in its decimal text.
    Decimal(String),
    Text(String),
    Array(Vec<Json>),
    Object(Members),
}

/// The members of a JSON object, in document order. Where a name occurs twice,
/// the first counts.
#[derive(Debug, PartialEq)]
pub struct Members {
    pub entries: Vec<(String, Json)>,
}

/// What a JSON document means: texts are character sequences and objects are
/// maps from member names.
#[verifier::ext_equal]
pub enum JsonView {
    Null,
    Bool(bool),
    Unsigned(nat),
    Negative(int),
    Decimal(Seq<char>),
    Text(Seq<char>),
    Array(Seq<JsonView>),
    Object(Map<Seq<char>, JsonView>),
}

/// The documents of a list, one by one.
pub open spec fn items_view(items: Seq<Json>) -> Seq<JsonView>
    decreases items,
{
    Seq::new(
        items.len(),
        |i: int|
            if 0 <= i < items.len() {
                items[i].view()
            } else {
                JsonView::Null
            },
    )
}

/// The map that a member list stands for.
pub open spec fn members_view(entries: Seq<(String, Json)>) -> Map<Seq<char>, JsonView>
    decreases entries,
{
    if entries.len() == 0 {
        Map::empty()
    } else {
        members_view(entries.drop_first()).insert(entries[0].0@, entries[0].1.view())
    }
}

impl View for Json {
    type V = JsonView;

    open spec fn view(&self) -> JsonView
        decreases self,
    {
        match self {
            Json::Null => JsonView::Null,
            Json::Bool(b) => JsonView::Bool(*b),
            Json::Unsigned(n) => JsonView::Unsigned(*n as nat),
            Json::Negative(n) => JsonView::Negative(*n as int),
            Json::Decimal(s) => JsonView::Decimal(s@),
            Json::Text(s) => JsonView::Text(s@),
            Json::Array(items) => JsonView::Array(items_view(items@)),
            Json::Object(members) => JsonView::Object(members_view(members.entries@)),
        }
    }
}

impl View for Members {
    type V = Map<Seq<char>, JsonView>;

    open spec fn view(&self) -> Map<Seq<char>, JsonView> {
        members_view(self.entries@)
    }
}

impl JsonView {
    /// The member of an object by that name; `None` on anything but an object.
    pub open spec fn get(self, name: Seq<char>) -> Option<JsonView> {
        match self {
            JsonView::Object(m) => if m.dom().contains(name) {
                Some(m[name])
            } else {
                None
            },
            _ => None,
        }
    }

    /// The characters of a text; `None` on anything else.
    pub open spec fn text(self) -> Option<Seq<char>> {
        match self {
            JsonView::Text(s) => Some(s),
            _ => None,
        }
    }

    /// The elements of an array; `None` on anything else.
    pub open spec fn items(self) -> Option<Seq<JsonView>> {
        match self {
            JsonView::Array(a) => Some(a),
            _ => None,
        }
    }

    /// A non-negative integer; `None` on anything else.
    pub open spec fn unsigned(self) -> Option<nat> {
        match self {
            JsonView::Unsigned(n) => Some(n),
            _ => None,
        }
    }

    /// The text behind a member, as in `{"name": "text"}`.
    pub open spec fn text_at(self, name: Seq<char>) -> Option<Seq<char>> {
        match self.get(name) {
            Some(v) => v.text(),
            None => None,
        }
    }

    /// The elements behind a member, as in `{"name": [..]}`.
    pub open spec fn items_at(self, name: Seq<char>) -> Option<Seq<JsonView>> {
        match self.get(name) {
            Some(v) => v.items(),
            None => None,
        }
    }

    /// The text behind two members, as in `{"outer": {"inner": "text"}}`.
    pub open spec fn text_at2(self, outer: Seq<char>, inner: Seq<char>) -> Option<Seq<char>> {
        match self.get(outer) {
            Some(v) => v.text_at(inner),
            None => None,
        }
    }
}

/// The JSON array of a list of texts.
pub open spec fn text_array(list: Seq<Seq<char>>) -> JsonView {
    JsonView::Array(Seq::new(list.len(), |i: int| JsonView::Text(list[i])))
}

/// `i` is the place where `name` first occurs.
pub open spec fn first_at(entries: Seq<(String, Json)>, name: Seq<char>, i: int) -> bool {
    &&& 0 <= i < entries.len()
    &&& entries[i].0@ == name
    &&& forall|j: int| 0 <= j < i ==> (#[trigger] entries[j]).0@ != name
}

/// The first occurrence of a name decides what the map holds under it.
proof fn lemma_members_at(entries: Seq<(String, Json)>, name: Seq<char>)
    ensures
        (forall|j: int| 0 <= j < entries.len() ==> (#[trigger] entries[j]).0@ != name)
            ==> !members_view(entries).dom().contains(name),
        forall|i: int| #[trigger]
            first_at(entries, name, i) ==> members_view(entries).dom().contains(name)
                && members_view(entries)[name] == entries[i].1@,
        members_view(entries).dom().contains(name) ==> exists|i: int|
            first_at(entries, name, i),
    decreases entries.len(),
{
    reveal_with_fuel(members_view, 2);
    if entries.len() > 0 {
        let rest = entries.drop_first();
        lemma_members_at(rest, name);
        if entries[0].0@ == name {
            assert(first_at(entries, name, 0));
        } else {
            assert forall|i: int| #[trigger] first_at(entries, name, i) implies members_view(
                entries,
            ).dom().contains(name) && members_view(entries)[name] == entries[i].1@ by {
                assert(rest[i - 1] == entries[i]);
                assert forall|j: int| 0 <= j < i - 1 implies (#[trigger] rest[j]).0@ != name by {
                    assert(rest[j] == entries[j + 1]);
                }
                assert(first_at(rest, name, i - 1));
            }
            if forall|j: int| 0 <= j < entries.len() ==> (#[trigger] entries[j]).0@ != name {
                assert forall|j: int| 0 <= j < rest.len() implies (#[trigger] rest[j]).0@
                    != name by {
                    assert(rest[j] == entries[j + 1]);
                }
            }
            if members_view(rest).dom().contains(name) {
                let i = choose|i: int| first_at(rest, name, i);
                assert(entries[i + 1] == rest[i]);
                assert forall|j: int| 0 <= j < i + 1 implies (#[trigger] entries[j]).0@
                    != name by {
                    if j > 0 {
                        assert(entries[j] == rest[j - 1]);
                    }
                }
                assert(first_at(entries, name, i + 1));
            }
        }
    }
}

impl Members {
    /// No members.
    pub fn new() -> (res: Members)
        ensures
            res@ == Map::<Seq<char>, JsonView>::empty(),
    {
        Members { entries: Vec::new() }
    }

    /// These members and one more.
    pub fn with(self, name: &str, value: Json) -> (res: Members)
        ensures
            res@ == self@.insert(name@, value@),
    {
        let mut members = self;
        members.insert(name, value);
        members
    }

    /// Where `name` first occurs, if it does.
    fn position(&self, name: &str) -> (res: Option<usize>)
        ensures
            match res {
                Some(i) => first_at(self.entries@, name@, i as int) && self@.dom().contains(name@)
                    && self@[name@] == self.entries@[i as int].1@,
                None => !self@.dom().contains(name@),
            },
    {
        proof {
            lemma_members_at(self.entries@, name@);
        }
        let wanted = name.to_owned();
        let mut i: usize = 0;
        while i < self.entries.len()
            invariant
                wanted@ == name@,
                i <= self.entries.len(),
                forall|j: int| 0 <= j < i ==> (#[trigger] self.entries@[j]).0@ != name@,
                forall|k: int| #[trigger]
                    first_at(self.entries@, name@, k) ==> self@.dom().contains(name@)
                        && self@[name@] == self.entries@[k].1@,
            decreases self.entries.len() - i,
        {
            if self.entries[i].0 == wanted {
                assert(first_at(self.entries@, name@, i as int));
                return Some(i);
            }
            i += 1;
        }
        None
    }

    /// The member by that name.
    pub fn get(&self, name: &str) -> (res: Option<&Json>)
        ensures
            match res {
                Some(v) => self@.dom().contains(name@) && v@ == self@[name@],
                None => !self@.dom().contains(name@),
            },
    {
        match self.position(name) {
            Some(i) => Some(&self.entries[i].1),
            None => None,
        }
    }

    /// Whether there is a member by that name.
    pub fn contains_key(&self, name: &str) -> (res: bool)
        ensures
            res == self@.dom().contains(name@),
    {
        self.position(name).is_some()
    }

    /// Puts `value` under `name`, in place of what stood there.
    pub fn insert(&mut self, name: &str, value: Json)
        ensures
            final(self)@ == old(self)@.insert(name@, value@),
    {
        let ghost before = self.entries@;
        match self.position(name) {
            Some(i) => {
                let entry: (String, Json) = (name.to_owned(), value);
                self.entries.set(i, entry);
                proof {
                    let after = self.entries@;
                    assert forall|k: Seq<char>|
                        #![trigger members_view(after).dom().contains(k)]
                        members_view(after).dom().contains(k) == members_view(before).insert(
                            name@,
                            value@,
                        ).dom().contains(k) && (members_view(after).dom().contains(k)
                            ==> members_view(after)[k] == members_view(before).insert(
                            name@,
                            value@,
                        )[k]) by {
                        lemma_members_at(before, k);
                        lemma_members_at(after, k);
                        assert forall|j: int| 0 <= j < before.len() implies (
                        #[trigger] after[j]).0@ == before[j].0@ by {}
                        assert forall|j: int| #[trigger]
                            first_at(before, k, j) == first_at(after, k, j) by {
                            assert forall|l: int| 0 <= l < before.len() implies (
                            #[trigger] before[l]).0@ == after[l].0@ by {}
                        }
                        if members_view(before).dom().contains(k) {
                            let j = choose|j: int| first_at(before, k, j);
                            assert(first_at(after, k, j));
                        }
                        if members_view(after).dom().contains(k) {
                            let j = choose|j: int| first_at(after, k, j);
                            assert(first_at(before, k, j));
                        }
                    }
                    assert(members_view(after) =~= members_view(before).insert(name@, value@));
                }
            },
            None => {
                self.entries.push((name.to_owned(), value));
                proof {
                    lemma_members_push(before, self.entries@.last());
                }
            },
        }
    }

    /// Takes the member by that name away, if there is one.
    pub fn remove(&mut self, name: &str)
        ensures
            final(self)@ == old(self)@.remove(name@),
    {
        let wanted = name.to_owned();
        let mut kept: Vec<(String, Json)> = Vec::new();
        let mut entries: Vec<(String, Json)> = Vec::new();
        std::mem::swap(&mut entries, &mut self.entries);
        let ghost all = entries@;
        proof {
            assert(members_view(Seq::<(String, Json)>::empty()) =~= Map::empty());
        }
        for entry in it: entries
            invariant
                it.seq() == all,
                wanted@ == name@,
                members_view(kept@) == members_view(all.take(it.index())).remove(name@),
        {
            proof {
                let k = it.index();
                assert(all.take(k + 1) =~= all.take(k).push(all[k]));
                lemma_members_push(all.take(k), all[k]);
                lemma_members_push(kept@, all[k]);
            }
            if entry.0 != wanted {
                kept.push(entry);
            }
            assert(members_view(kept@) =~= members_view(all.take(it.index() + 1)).remove(name@));
        }
        proof {
            assert(all.take(all.len() as int) =~= all);
        }
        self.entries = kept;
    }
}

/// A member at the end counts only where its name is new.
proof fn lemma_members_push(entries: Seq<(String, Json)>, last: (String, Json))
    ensures
        members_view(entries.push(last)) == if members_view(entries).dom().contains(last.0@) {
            members_view(entries)
        } else {
            members_view(entries).insert(last.0@, last.1@)
        },
    decreases entries.len(),
{
    reveal_with_fuel(members_view, 2);
    let all = entries.push(last);
    if entries.len() == 0 {
        assert(all.drop_first() =~= entries);
    } else {
        lemma_members_push(entries.drop_first(), last);
        assert(all.drop_first() =~= entries.drop_first().push(last));
        assert(members_view(all) =~= if members_view(entries).dom().contains(last.0@) {
            members_view(entries)
        } else {
            members_view(entries).insert(last.0@, last.1@)
        });
    }
}

impl Json {
    /// The member of an object by that name; `None` on anything but an object.
    pub fn get(&self, name: &str) -> (res: Option<&Json>)
        ensures
            match res {
                Some(v) => self@.get(name@) == Some(v@),
                None => self@.get(name@) is None,
            },
    {
        match self {
            Json::Object(members) => members.get(name),
            _ => None,
        }
    }

    /// The text, if this is one.
    pub fn as_str(&self) -> (res: Option<&str>)
        ensures
            match res {
                Some(s) => self@.text() == Some(s@),
                None => self@.text() is None,
            },
    {
        match self {
            Json::Text(s) => Some(s.as_str()),
            _ => None,
        }
    }

    /// The elements, if this is an array.
    pub fn as_array(&self) -> (res: Option<&Vec<Json>>)
        ensures
            match res {
                Some(a) => self@.items() == Some(items_view(a@)),
                None => self@.items() is None,
            },
    {
        match self {
            Json::Array(a) => Some(a),
            _ => None,
        }
    }

    /// The number, if it is a non-negative integer.
    pub fn as_u64(&self) -> (res: Option<u64>)
        ensures
            match res {
                Some(n) => self@.unsigned() == Some(n as nat),
                None => self@.unsigned() is None,
            },
    {
        match self {
            Json::Unsigned(n) => Some(*n),
            _ => None,
        }
    }

    pub fn is_null(&self) -> (res: bool)
        ensures
            res == (self@ is Null),
    {
        match self {
            Json::Null => true,
            _ => false,
        }
    }

    /// The text behind a member, as in `{"name": "text"}`.
    pub fn text_at(&self, name: &str) -> (res: Option<&str>)
        ensures
            match res {
                Some(s) => self@.text_at(name@) == Some(s@),
                None => self@.text_at(name@) is None,
            },
    {
        match self.get(name) {
            Some(v) => v.as_str(),
            None => None,
        }
    }

    /// The elements behind a member, as in `{"name": [..]}`.
    pub fn items_at(&self, name: &str) -> (res: Option<&Vec<Json>>)
        ensures
            match res {
                Some(a) => self@.items_at(name@) == Some(items_view(a@)),
                None => self@.items_at(name@) is None,
            },
    {
        match self.get(name) {
            Some(v) => v.as_array(),
            None => None,
        }
    }

    /// The text behind two members, as in `{"outer": {"inner": "text"}}`.
    pub fn text_at2(&self, outer: &str, inner: &str) -> (res: Option<&str>)
        ensures
            match res {
                Some(s) => self@.text_at2(outer@, inner@) == Some(s@),
                None => self@.text_at2(outer@, inner@) is None,
            },
    {
        match self.get(outer) {
            Some(v) => v.text_at(inner),
            None => None,
        }
    }

    /// A JSON array of texts.
    pub fn texts(list: &Vec<String>) -> (res: Json)
        ensures
            res@ == text_array(texts(list@)),
    {
        let mut items: Vec<Json> = Vec::new();
        let mut i: usize = 0;
        while i < list.len()
            invariant
                i <= list.len(),
                items.len() == i,
                forall|j: int| 0 <= j < i ==> (#[trigger] items@[j])@ == JsonView::Text(list@[j]@),
            decreases list.len() - i,
        {
            items.push(Json::text(list[i].as_str()));
            i += 1;
        }
        assert(items_view(items@) =~= text_array(texts(list@))->Array_0);
        Json::Array(items)
    }

    /// A JSON text.
    pub fn text(s: &str) -> (res: Json)
        ensures
            res@ == JsonView::Text(s@),
    {
        Json::Text(s.to_owned())
    }
}

impl Clone for Json {
    fn clone(&self) -> (res: Self)
        ensures
            res@ == self@,
        decreases self,
    {
        match self {
            Json::Null => Json::Null,
            Json::Bool(b) => Json::Bool(*b),
            Json::Unsigned(n) => Json::Unsigned(*n),
            Json::Negative(n) => Json::Negative(*n),
            Json::Decimal(s) => Json::Decimal(s.clone()),
            Json::Text(s) => Json::Text(s.clone()),
            Json::Array(items) => {
                let mut copy: Vec<Json> = Vec::new();
                let mut i: usize = 0;
                while i < items.len()
                    invariant
                        self == Json::Array(*items),
                        i <= items.len(),
                        copy.len() == i,
                        forall|j: int| 0 <= j < i ==> (#[trigger] copy@[j])@ == items@[j]@,
                    decreases items.len() - i,
                {
                    let item = &items[i];
                    assert(decreases_to!(*self => self->Array_0));
                    assert(decreases_to!(self->Array_0 => self->Array_0[i as int]));
                    copy.push(item.clone());
                    i += 1;
                }
                assert(items_view(copy@) =~= items_view(items@));
                Json::Array(copy)
            },
            Json::Object(members) => Json::Object(members.clone()),
        }
    }
}

impl Clone for Members {
    fn clone(&self) -> (res: Self)
        ensures
            res@ == self@,
        decreases self,
    {
        let entries = &self.entries;
        let mut copy: Vec<(String, Json)> = Vec::new();
        let mut i: usize = 0;
        proof {
            assert(self.entries@.take(0) =~= Seq::empty());
        }
        while i < entries.len()
            invariant
                *entries == self.entries,
                i <= entries.len(),
                members_view(copy@) == members_view(entries@.take(i as int)),
            decreases entries.len() - i,
        {
            let entry = &entries[i];
            assert(decreases_to!(entries => entries[i as int]));
            let ghost before = copy@;
            copy.push((entry.0.clone(), entry.1.clone()));
            proof {
                assert(entries@.take(i + 1) =~= entries@.take(i as int).push(entries@[i as int]));
                lemma_members_push(entries@.take(i as int), entries@[i as int]);
                lemma_members_push(before, copy@.last());
                assert(copy@ =~= before.push(copy@.last()));
            }
            i += 1;
        }
        proof {
            assert(entries@.take(entries@.len() as int) =~= entries@);
        }
        Members { entries: copy }
    }
}

// --- reading a text ---------------------------------------------------------

/// `serde_json::Value`, a JSON document, held closed: [`json_content`] names
/// what it holds.
#[verifier::external_type_specification]
#[verifier::external_body]
pub struct ExValue(serde_json::Value);

/// What a `serde_json::Value` holds.
pub uninterp spec fn json_content(value: serde_json::Value) -> JsonView;

/// The document that `serde_json::from_str` reads from a text, or `None` where
/// the text is not JSON.
pub uninterp spec fn json_parse(text: Seq<char>) -> Option<JsonView>;

/// The text that `serde_json` writes for a document.
pub uninterp spec fn json_text(document: JsonView) -> Seq<char>;

/// One level of a `serde_json::Value`, its parts still closed.
pub enum JsonNode {
    Null,
    Bool(bool),
    Unsigned(u64),
    Negative(i64),
    Decimal(String),
    Text(String),
    Array(Vec<serde_json::Value>),
    Object(Vec<(String, serde_json::Value)>),
}

/// The map that closed members stand for.
pub open spec fn node_members(entries: Seq<(String, serde_json::Value)>) -> Map<
    Seq<char>,
    JsonView,
>
    decreases entries.len(),
{
    if entries.len() == 0 {
        Map::empty()
    } else {
        node_members(entries.drop_first()).insert(entries[0].0@, json_content(entries[0].1))
    }
}

/// What one level of a document holds.
pub open spec fn node_content(node: JsonNode) -> JsonView {
    match node {
        JsonNode::Null => JsonView::Null,
        JsonNode::Bool(b) => JsonView::Bool(b),
        JsonNode::Unsigned(n) => JsonView::Unsigned(n as nat),
        JsonNode::Negative(n) => JsonView::Negative(n as int),
        JsonNode::Decimal(s) => JsonView::Decimal(s@),
        JsonNode::Text(s) => JsonView::Text(s@),
        JsonNode::Array(items) => JsonView::Array(
            Seq::new(items@.len(), |i: int| json_content(items@[i])),
        ),
        JsonNode::Object(entries) => JsonView::Object(node_members(entries@)),
    }
}

/// No name occurs twice.
pub open spec fn distinct_names(entries: Seq<(String, serde_json::Value)>) -> bool {
    forall|i: int, j: int|
        0 <= i < j < entries.len() ==> (#[trigger] entries[i]).0@ != (#[trigger] entries[j]).0@
}

/// `serde_json::from_str::<serde_json::Value>`. Its result is named by
/// [`json_parse`]; what stands in the value it returns, by [`json_content`].
#[verifier::external_body]
fn parse_value(text: &str) -> (res: Option<serde_json::Value>)
    ensures
        match res {
            Some(value) => json_parse(text@) == Some(json_content(value)),
            None => json_parse(text@) is None,
        },
{
    serde_json::from_str::<serde_json::Value>(text).ok()
}

/// Takes a `serde_json::Value` apart by one level, variant by variant. The
/// parts hold what the value held, and an object's names are distinct.
#[verifier::external_body]
fn open_value(value: serde_json::Value) -> (node: JsonNode)
    ensures
        node_content(node) == json_content(value),
        node matches JsonNode::Object(entries) ==> distinct_names(entries@),
{
    match value {
        serde_json::Value::Null => JsonNode::Null,
        serde_json::Value::Bool(b) => JsonNode::Bool(b),
        serde_json::Value::Number(n) => match (n.as_u64(), n.as_i64()) {
            (Some(u), _) => JsonNode::Unsigned(u),
            (None, Some(i)) => JsonNode::Negative(i),
            (None, None) => JsonNode::Decimal(n.to_string()),
        },
        serde_json::Value::String(s) => JsonNode::Text(s),
        serde_json::Value::Array(items) => JsonNode::Array(items),
        serde_json::Value::Object(entries) => JsonNode::Object(entries.into_iter().collect()),
    }
}

/// `serde_json::Value`'s `to_string`: the compact text of the document, named
/// by [`json_text`]. The members of an object are held and written in the order
/// of their names, so the text is a function of the document.
#[verifier::external_body]
fn value_text(value: &serde_json::Value) -> (res: String)
    ensures
        res@ == json_text(json_content(*value)),
{
    value.to_string()
}

/// Every closed member is in the map under its name.
proof fn lemma_node_members(entries: Seq<(String, serde_json::Value)>)
    requires
        distinct_names(entries),
    ensures
        forall|i: int|
            0 <= i < entries.len() ==> node_members(entries).dom().contains(
                (#[trigger] entries[i]).0@,
            ) && node_members(entries)[entries[i].0@] == json_content(entries[i].1),
        node_members(entries).dom().finite(),
    decreases entries.len(),
{
    if entries.len() > 0 {
        let rest = entries.drop_first();
        assert forall|i: int, j: int| 0 <= i < j < rest.len() implies (#[trigger] rest[i]).0@ != (
        #[trigger] rest[j]).0@ by {
            assert(rest[i] == entries[i + 1]);
            assert(rest[j] == entries[j + 1]);
        }
        lemma_node_members(rest);
        assert forall|i: int| 0 <= i < entries.len() implies node_members(entries).dom().contains(
            (#[trigger] entries[i]).0@,
        ) && node_members(entries)[entries[i].0@] == json_content(entries[i].1) by {
            if i > 0 {
                assert(rest[i - 1] == entries[i]);
                assert(entries[0].0@ != entries[i].0@);
            }
        }
    }
}

/// A closed member at the end counts only where its name is new.
proof fn lemma_node_members_push(
    entries: Seq<(String, serde_json::Value)>,
    last: (String, serde_json::Value),
)
    ensures
        node_members(entries.push(last)) == if node_members(entries).dom().contains(last.0@) {
            node_members(entries)
        } else {
            node_members(entries).insert(last.0@, json_content(last.1))
        },
    decreases entries.len(),
{
    reveal_with_fuel(node_members, 2);
    let all = entries.push(last);
    if entries.len() == 0 {
        assert(all.drop_first() =~= entries);
    } else {
        lemma_node_members_push(entries.drop_first(), last);
        assert(all.drop_first() =~= entries.drop_first().push(last));
        assert(node_members(all) =~= if node_members(entries).dom().contains(last.0@) {
            node_members(entries)
        } else {
            node_members(entries).insert(last.0@, json_content(last.1))
        });
    }
}

/// The document that a `serde_json::Value` holds, part by part.
fn build(value: serde_json::Value) -> (res: Json)
    ensures
        res@ == json_content(value),
    decreases json_content(value),
{
    let ghost whole = json_content(value);
    match open_value(value) {
        JsonNode::Null => Json::Null,
        JsonNode::Bool(b) => Json::Bool(b),
        JsonNode::Unsigned(n) => Json::Unsigned(n),
        JsonNode::Negative(n) => Json::Negative(n),
        JsonNode::Decimal(s) => Json::Decimal(s),
        JsonNode::Text(s) => Json::Text(s),
        JsonNode::Array(items) => {
            let ghost all = items@;
            let ghost parts = whole->Array_0;
            let mut built: Vec<Json> = Vec::new();
            for item in it: items
                invariant
                    it.seq() == all,
                    whole == JsonView::Array(parts),
                    parts == Seq::new(all.len(), |i: int| json_content(all[i])),
                    whole == json_content(value),
                    built.len() == it.index(),
                    forall|j: int|
                        0 <= j < built.len() ==> (#[trigger] built@[j])@ == json_content(all[j]),
            {
                assert(decreases_to!(whole => whole->Array_0));
                assert(decreases_to!(whole->Array_0 => whole->Array_0[it.index()]));
                built.push(build(item));
            }
            assert(items_view(built@) =~= parts);
            Json::Array(built)
        },
        JsonNode::Object(entries) => {
            let ghost all = entries@;
            let ghost parts = whole->Object_0;
            let mut built = Members::new();
            proof {
                lemma_node_members(all);
                assert(all.take(0) =~= Seq::empty());
            }
            for entry in it: entries
                invariant
                    it.seq() == all,
                    distinct_names(all),
                    whole == JsonView::Object(parts),
                    parts == node_members(all),
                    parts.dom().finite(),
                    forall|i: int|
                        0 <= i < all.len() ==> parts.dom().contains((#[trigger] all[i]).0@)
                            && parts[all[i].0@] == json_content(all[i].1),
                    whole == json_content(value),
                    built@ == node_members(all.take(it.index())),
            {
                let ghost k = it.index();
                proof {
                    assert(all[k] == entry);
                    assert(decreases_to!(whole => whole->Object_0));
                    assert(decreases_to!(whole->Object_0 => whole->Object_0[entry.0@]));
                    let done = all.take(k);
                    assert(all.take(k + 1) =~= done.push(all[k]));
                    lemma_node_members_push(done, all[k]);
                    lemma_node_absent(done, entry.0@);
                }
                built.insert(entry.0.as_str(), build(entry.1));
            }
            assert(all.take(all.len() as int) =~= all);
            Json::Object(built)
        },
    }
}

/// A name that no entry has is not in the map.
proof fn lemma_node_absent(entries: Seq<(String, serde_json::Value)>, name: Seq<char>)
    requires
        forall|j: int| 0 <= j < entries.len() ==> (#[trigger] entries[j]).0@ != name,
    ensures
        !node_members(entries).dom().contains(name),
    decreases entries.len(),
{
    if entries.len() > 0 {
        let rest = entries.drop_first();
        assert forall|j: int| 0 <= j < rest.len() implies (#[trigger] rest[j]).0@ != name by {
            assert(rest[j] == entries[j + 1]);
        }
        lemma_node_absent(rest, name);
    }
}

impl Json {
    /// Reads a JSON text; `None` where it is not JSON.
    pub fn parse(text: &str) -> (res: Option<Json>)
        ensures
            match res {
                Some(document) => json_parse(text@) == Some(document@),
                None => json_parse(text@) is None,
            },
    {
        match parse_value(text) {
            Some(value) => Some(build(value)),
            None => None,
        }
    }
}

/// The compact text of the member `name` of the object that `text` holds;
/// `None` where `text` is not JSON, not an object, or has no such member.
pub fn member_text(text: &str, name: &str) -> (res: Option<String>)
    ensures
        res is Some == (json_parse(text@) is Some && json_parse(text@)->0.get(name@) is Some),
        res matches Some(s) ==> s@ == json_text(json_parse(text@)->0.get(name@)->0),
{
    let value = match parse_value(text) {
        Some(value) => value,
        None => return None,
    };
    let wanted = name.to_owned();
    match open_value(value) {
        JsonNode::Object(entries) => {
            proof {
                lemma_node_members(entries@);
            }
            let mut i: usize = 0;
            while i < entries.len()
                invariant
                    i <= entries.len(),
                    wanted@ == name@,
                    json_parse(text@) == Some(JsonView::Object(node_members(entries@))),
                    forall|j: int|
                        0 <= j < entries.len() ==> node_members(entries@).dom().contains(
                            (#[trigger] entries@[j]).0@,
                        ) && node_members(entries@)[entries@[j].0@] == json_content(entries@[j].1),
                    forall|j: int| 0 <= j < i ==> (#[trigger] entries@[j]).0@ != name@,
                decreases entries.len() - i,
            {
                if entries[i].0 == wanted {
                    return Some(value_text(&entries[i].1));
                }
                i += 1;
            }
            proof {
                lemma_node_absent(entries@, name@);
            }
            None
        },
        _ => None,
    }
}

// --- writing a text ---------------------------------------------------------

/// The number that a decimal text stands for, as a document; `None` where the
/// text is no finite number.
pub uninterp spec fn decimal_number(text: Seq<char>) -> Option<JsonView>;

/// The text that `serde_json` writes for a document, on several lines.
pub uninterp spec fn json_pretty(document: JsonView) -> Seq<char>;

/// `serde_json::Number::from_f64` of the number in a text, which is read with
/// `str::parse`. The result is named by [`decimal_number`].
#[verifier::external_body]
fn number_value(text: &str) -> (res: Option<serde_json::Value>)
    ensures
        match res {
            Some(value) => decimal_number(text@) == Some(json_content(value)),
            None => decimal_number(text@) is None,
        },
{
    let number = text.parse().ok().and_then(serde_json::Number::from_f64)?;
    Some(serde_json::Value::Number(number))
}

/// Puts a `serde_json::Value` together from its parts, variant by variant. It
/// holds what they hold.
#[verifier::external_body]
fn close_value(node: JsonNode) -> (res: serde_json::Value)
    requires
        !(node is Decimal),
        node matches JsonNode::Negative(n) ==> n < 0,
        node matches JsonNode::Object(entries) ==> distinct_names(entries@),
    ensures
        json_content(res) == node_content(node),
{
    match node {
        JsonNode::Null => serde_json::Value::Null,
        JsonNode::Bool(b) => serde_json::Value::Bool(b),
        JsonNode::Unsigned(n) => serde_json::Value::from(n),
        JsonNode::Negative(n) => serde_json::Value::from(n),
        JsonNode::Decimal(s) => serde_json::Value::String(s),
        JsonNode::Text(s) => serde_json::Value::String(s),
        JsonNode::Array(items) => serde_json::Value::Array(items),
        JsonNode::Object(entries) => serde_json::Value::Object(entries.into_iter().collect()),
    }
}

/// `serde_json::to_string_pretty`: the text of the document on several lines,
/// named by [`json_pretty`]. Writing a value to a string does not fail; where
/// it did, the compact text would stand in.
#[verifier::external_body]
fn pretty_value(value: &serde_json::Value) -> (res: String)
    ensures
        res@ == json_pretty(json_content(*value)),
{
    serde_json::to_string_pretty(value).unwrap_or_else(|_| value.to_string())
}

/// A document as it is written: every number in it is the one that its text
/// stands for, and a text that stands for none is written as a text.
pub open spec fn written(document: JsonView) -> JsonView
    decreases document,
{
    match document {
        JsonView::Negative(n) => if n >= 0 {
            JsonView::Unsigned(n as nat)
        } else {
            document
        },
        JsonView::Decimal(text) => match decimal_number(text) {
            Some(number) => number,
            None => JsonView::Text(text),
        },
        JsonView::Array(items) => JsonView::Array(
            Seq::new(
                items.len(),
                |i: int|
                    if 0 <= i < items.len() {
                        written(items[i])
                    } else {
                        JsonView::Null
                    },
            ),
        ),
        JsonView::Object(members) => JsonView::Object(
            Map::new(
                |name: Seq<char>| members.dom().contains(name),
                |name: Seq<char>|
                    if members.dom().contains(name) && members.dom().finite() {
                        written(members[name])
                    } else {
                        JsonView::Null
                    },
            ),
        ),
        _ => document,
    }
}

/// The members of an object as they are written.
spec fn written_members(entries: Seq<(String, Json)>) -> Map<Seq<char>, JsonView> {
    Map::new(
        |name: Seq<char>| members_view(entries).dom().contains(name),
        |name: Seq<char>| written(members_view(entries)[name]),
    )
}

proof fn lemma_members_finite(entries: Seq<(String, Json)>)
    ensures
        members_view(entries).dom().finite(),
    decreases entries.len(),
{
    reveal_with_fuel(members_view, 2);
    if entries.len() > 0 {
        lemma_members_finite(entries.drop_first());
    }
}

/// A name that is in the map of closed members is that of one of them.
proof fn lemma_node_present(entries: Seq<(String, serde_json::Value)>, name: Seq<char>)
    requires
        exists|j: int| 0 <= j < entries.len() && (#[trigger] entries[j]).0@ == name,
    ensures
        node_members(entries).dom().contains(name),
    decreases entries.len(),
{
    let j = choose|j: int| 0 <= j < entries.len() && (#[trigger] entries[j]).0@ == name;
    if j > 0 {
        assert(entries.drop_first()[j - 1] == entries[j]);
        lemma_node_present(entries.drop_first(), name);
    }
}

impl Members {
    /// The members as they are written, each name once.
    fn to_entries(&self) -> (res: Vec<(String, serde_json::Value)>)
        ensures
            distinct_names(res@),
            node_members(res@) == written_members(self.entries@),
        decreases self,
    {
        let entries = &self.entries;
        let mut out: Vec<(String, serde_json::Value)> = Vec::new();
        let mut i: usize = 0;
        proof {
            assert(entries@.take(0) =~= Seq::empty());
            assert(node_members(out@) =~= written_members(entries@.take(0)));
        }
        while i < entries.len()
            invariant
                *entries == self.entries,
                i <= entries.len(),
                distinct_names(out@),
                node_members(out@) == written_members(entries@.take(i as int)),
            decreases entries.len() - i,
        {
            let entry = &entries[i];
            let ghost done = entries@.take(i as int);
            let ghost before = out@;
            proof {
                assert(entries@.take(i + 1) =~= done.push(entries@[i as int]));
                lemma_members_push(done, entries@[i as int]);
            }
            if !has_name(&out, entry.0.as_str()) {
                assert(decreases_to!(entries => entries[i as int]));
                out.push((entry.0.clone(), entry.1.to_value()));
                proof {
                    lemma_node_absent(before, entry.0@);
                    lemma_node_members_push(before, out@.last());
                    assert(out@ =~= before.push(out@.last()));
                }
            }
            assert(node_members(out@) =~= written_members(entries@.take(i + 1)));
            i += 1;
        }
        assert(entries@.take(entries@.len() as int) =~= entries@);
        out
    }
}

/// Whether a closed member has that name.
fn has_name(entries: &Vec<(String, serde_json::Value)>, name: &str) -> (res: bool)
    ensures
        res == exists|j: int| 0 <= j < entries@.len() && (#[trigger] entries@[j]).0@ == name@,
        res == node_members(entries@).dom().contains(name@),
{
    let wanted = name.to_owned();
    let mut i: usize = 0;
    while i < entries.len()
        invariant
            wanted@ == name@,
            i <= entries.len(),
            forall|j: int| 0 <= j < i ==> (#[trigger] entries@[j]).0@ != name@,
        decreases entries.len() - i,
    {
        if entries[i].0 == wanted {
            proof {
                assert(entries@[i as int].0@ == name@);
                lemma_node_present(entries@, name@);
            }
            return true;
        }
        i += 1;
    }
    proof {
        lemma_node_absent(entries@, name@);
    }
    false
}

impl Json {
    /// The document as a `serde_json::Value`.
    pub fn to_value(&self) -> (res: serde_json::Value)
        ensures
            json_content(res) == written(self@),
        decreases self,
    {
        match self {
            Json::Null => close_value(JsonNode::Null),
            Json::Bool(b) => close_value(JsonNode::Bool(*b)),
            Json::Unsigned(n) => close_value(JsonNode::Unsigned(*n)),
            Json::Negative(n) => if *n >= 0 {
                close_value(JsonNode::Unsigned(*n as u64))
            } else {
                close_value(JsonNode::Negative(*n))
            },
            Json::Decimal(text) => match number_value(text.as_str()) {
                Some(value) => value,
                None => close_value(JsonNode::Text(text.clone())),
            },
            Json::Text(text) => close_value(JsonNode::Text(text.clone())),
            Json::Array(items) => {
                let mut out: Vec<serde_json::Value> = Vec::new();
                let mut i: usize = 0;
                while i < items.len()
                    invariant
                        self == Json::Array(*items),
                        i <= items.len(),
                        out.len() == i,
                        forall|j: int|
                            0 <= j < i ==> json_content(#[trigger] out@[j]) == written(
                                items@[j]@,
                            ),
                    decreases items.len() - i,
                {
                    let item = &items[i];
                    assert(decreases_to!(*self => self->Array_0));
                    assert(decreases_to!(self->Array_0 => self->Array_0[i as int]));
                    out.push(item.to_value());
                    i += 1;
                }
                let node = JsonNode::Array(out);
                proof {
                    let views = items_view(items@);
                    assert(self@ == JsonView::Array(views));
                    assert forall|j: int| 0 <= j < views.len() implies #[trigger] node_content(
                        node,
                    )->Array_0[j] == written(self@)->Array_0[j] by {
                        assert(views[j] == items@[j]@);
                        assert(json_content(node->Array_0@[j]) == written(items@[j]@));
                    }
                    assert(node_content(node)->Array_0 =~= written(self@)->Array_0);
                }
                close_value(node)
            },
            Json::Object(members) => {
                let node = JsonNode::Object(members.to_entries());
                proof {
                    lemma_members_finite(members.entries@);
                    assert(node_content(node)->Object_0 =~= written(self@)->Object_0);
                }
                close_value(node)
            },
        }
    }

    /// The text of the document, on several lines.
    pub fn pretty(&self) -> (res: String)
        ensures
            res@ == json_pretty(written(self@)),
    {
        pretty_value(&self.to_value())
    }
}

} // verus!
