//! Reading TOML tables entry by entry.
//!
//! A reader takes the entries it knows out of a table; what is left over is an
//! unknown key, and refused.

use toml::de::DeValue;
use vstd::prelude::*;
use vstd::string::*;

use crate::keyset::texts;

verus! {

/// What a TOML value means. Floats and datetimes occur in no table that this
/// library reads, so nothing is told apart among them.
#[verifier::ext_equal]
pub enum TomlView {
    Text(Seq<char>),
    Integer(int),
    Boolean(bool),
    Array(Seq<TomlView>),
    Table(Map<Seq<char>, TomlView>),
    Other,
}

/// `toml::de::DeValue`, a TOML value, held closed: [`toml_content`] names what
/// it holds.
#[verifier::external_type_specification]
#[verifier::external_body]
pub struct ExTomlValue<'i>(toml::de::DeValue<'i>);

/// What a `toml::de::DeValue` holds.
pub uninterp spec fn toml_content(value: toml::de::DeValue<'_>) -> TomlView;

/// The table that `toml::de::DeTable::parse` reads from a text, or `None` where
/// the text is not TOML.
pub uninterp spec fn toml_parse(text: Seq<char>) -> Option<Map<Seq<char>, TomlView>>;

/// One level of a `toml::de::DeValue`, its parts still closed.
pub enum TomlNode<'a> {
    Text(String),
    Integer(i128),
    Boolean(bool),
    Array(Vec<DeValue<'a>>),
    Table(Vec<(String, DeValue<'a>)>),
    Other,
}

/// The map that closed entries stand for.
pub open spec fn table_view(entries: Seq<(String, DeValue<'_>)>) -> Map<Seq<char>, TomlView>
    decreases entries.len(),
{
    if entries.len() == 0 {
        Map::empty()
    } else {
        table_view(entries.drop_first()).insert(entries[0].0@, toml_content(entries[0].1))
    }
}

/// No key occurs twice.
pub open spec fn distinct_keys(entries: Seq<(String, DeValue<'_>)>) -> bool {
    forall|i: int, j: int|
        0 <= i < j < entries.len() ==> (#[trigger] entries[i]).0@ != (#[trigger] entries[j]).0@
}

/// The contents of closed values, one by one.
pub open spec fn array_view(items: Seq<DeValue<'_>>) -> Seq<TomlView> {
    Seq::new(items.len(), |i: int| toml_content(items[i]))
}

/// `toml::de::DeTable::parse`, the reading of a document that `toml::from_str`
/// begins with. Its result is named by [`toml_parse`]; what stands in the
/// entries it returns, by [`toml_content`].
#[verifier::external_body]
fn parse_entries(text: &str) -> (res: Option<Vec<(String, DeValue<'_>)>>)
    ensures
        match res {
            Some(entries) => toml_parse(text@) == Some(table_view(entries@)) && distinct_keys(
                entries@,
            ),
            None => toml_parse(text@) is None,
        },
{
    let table = toml::de::DeTable::parse(text).ok()?.into_inner();
    Some(table.into_iter().map(|(k, v)| (k.into_inner().into_owned(), v.into_inner())).collect())
}

/// Takes a `toml::de::DeValue` apart by one level, variant by variant. The parts
/// hold what the value held, and a table's keys are distinct. An integer is
/// held by its digits, which `i128::from_str_radix` reads; one that is too large
/// for that is told apart from no other value.
#[verifier::external_body]
pub(crate) fn open_toml(value: DeValue<'_>) -> (node: TomlNode<'_>)
    ensures
        match node {
            TomlNode::Text(s) => toml_content(value) == TomlView::Text(s@),
            TomlNode::Integer(n) => toml_content(value) == TomlView::Integer(n as int),
            TomlNode::Boolean(b) => toml_content(value) == TomlView::Boolean(b),
            TomlNode::Array(items) => toml_content(value) == TomlView::Array(array_view(items@)),
            TomlNode::Table(entries) => toml_content(value) == TomlView::Table(
                table_view(entries@),
            ) && distinct_keys(entries@),
            TomlNode::Other => toml_content(value) == TomlView::Other,
        },
{
    match value {
        DeValue::String(s) => TomlNode::Text(s.into_owned()),
        DeValue::Integer(n) => match i128::from_str_radix(n.as_str(), n.radix()) {
            Ok(n) => TomlNode::Integer(n),
            Err(_) => TomlNode::Other,
        },
        DeValue::Boolean(b) => TomlNode::Boolean(b),
        DeValue::Array(a) => TomlNode::Array(a.into_iter().map(|v| v.into_inner()).collect()),
        DeValue::Table(t) => TomlNode::Table(
            t.into_iter().map(|(k, v)| (k.into_inner().into_owned(), v.into_inner())).collect(),
        ),
        DeValue::Float(_) => TomlNode::Other,
        DeValue::Datetime(_) => TomlNode::Other,
    }
}

/// An entry decides what the map holds under its key.
proof fn lemma_table_at(entries: Seq<(String, DeValue<'_>)>)
    requires
        distinct_keys(entries),
    ensures
        forall|i: int|
            0 <= i < entries.len() ==> table_view(entries).dom().contains(
                (#[trigger] entries[i]).0@,
            ) && table_view(entries)[entries[i].0@] == toml_content(entries[i].1),
        forall|k: Seq<char>| #[trigger]
            table_view(entries).dom().contains(k) ==> exists|i: int|
                0 <= i < entries.len() && (#[trigger] entries[i]).0@ == k,
    decreases entries.len(),
{
    if entries.len() > 0 {
        let rest = entries.drop_first();
        assert forall|i: int, j: int| 0 <= i < j < rest.len() implies (#[trigger] rest[i]).0@ != (
        #[trigger] rest[j]).0@ by {
            assert(rest[i] == entries[i + 1]);
            assert(rest[j] == entries[j + 1]);
        }
        lemma_table_at(rest);
        assert forall|i: int| 0 <= i < entries.len() implies table_view(entries).dom().contains(
            (#[trigger] entries[i]).0@,
        ) && table_view(entries)[entries[i].0@] == toml_content(entries[i].1) by {
            if i > 0 {
                assert(rest[i - 1] == entries[i]);
                assert(entries[0].0@ != entries[i].0@);
            }
        }
        assert forall|k: Seq<char>| #[trigger]
            table_view(entries).dom().contains(k) implies exists|i: int|
            0 <= i < entries.len() && (#[trigger] entries[i]).0@ == k by {
            if entries[0].0@ != k {
                assert(table_view(rest).dom().contains(k));
                let i = choose|i: int| 0 <= i < rest.len() && (#[trigger] rest[i]).0@ == k;
                assert(entries[i + 1].0@ == k);
            }
        }
    }
}

/// A TOML table of which entries are taken one after the other.
pub struct Table<'a> {
    entries: Vec<(String, DeValue<'a>)>,
}

impl<'a> View for Table<'a> {
    type V = Map<Seq<char>, TomlView>;

    closed spec fn view(&self) -> Map<Seq<char>, TomlView> {
        table_view(self.entries@)
    }
}

impl<'a> Table<'a> {
    #[verifier::type_invariant]
    spec fn keys_distinct(&self) -> bool {
        distinct_keys(self.entries@)
    }

    /// Reads a TOML text; `None` where it is not TOML.
    pub fn parse(text: &'a str) -> (res: Option<Table<'a>>)
        ensures
            match res {
                Some(table) => toml_parse(text@) == Some(table@),
                None => toml_parse(text@) is None,
            },
    {
        match parse_entries(text) {
            Some(entries) => Some(Table { entries }),
            None => None,
        }
    }

    /// The table of these entries.
    pub(crate) fn from_entries(entries: Vec<(String, DeValue<'a>)>) -> (res: Table<'a>)
        requires
            distinct_keys(entries@),
        ensures
            res@ == table_view(entries@),
    {
        Table { entries }
    }

    /// The table that a value holds; `None` where it is not a table.
    pub fn of(value: DeValue<'a>) -> (res: Option<Table<'a>>)
        ensures
            match res {
                Some(table) => toml_content(value) == TomlView::Table(table@),
                None => !(toml_content(value) is Table),
            },
    {
        match open_toml(value) {
            TomlNode::Table(entries) => Some(Table { entries }),
            _ => None,
        }
    }

    /// Takes the entry by that key out of the table.
    pub fn take(&mut self, key: &str) -> (res: Option<DeValue<'a>>)
        ensures
            final(self)@ == old(self)@.remove(key@),
            match res {
                Some(value) => old(self)@.dom().contains(key@) && toml_content(value)
                    == old(self)@[key@],
                None => !old(self)@.dom().contains(key@),
            },
    {
        proof {
            use_type_invariant(&*self);
            lemma_table_at(self.entries@);
        }
        let wanted = key.to_owned();
        let ghost all = self.entries@;
        let mut entries: Vec<(String, DeValue<'_>)> = Vec::new();
        std::mem::swap(&mut entries, &mut self.entries);
        let mut i: usize = 0;
        while i < entries.len()
            invariant
                entries@ == all,
                distinct_keys(all),
                old(self)@ == table_view(all),
                forall|j: int|
                    0 <= j < all.len() ==> table_view(all).dom().contains((#[trigger] all[j]).0@)
                        && table_view(all)[all[j].0@] == toml_content(all[j].1),
                wanted@ == key@,
                i <= entries.len(),
                forall|j: int| 0 <= j < i ==> (#[trigger] all[j]).0@ != key@,
            decreases entries.len() - i,
        {
            if entries[i].0 == wanted {
                let entry = entries.remove(i);
                proof {
                    lemma_table_remove(all, i as int);
                }
                self.entries = entries;
                return Some(entry.1);
            }
            i += 1;
        }
        self.entries = entries;
        assert(self@ =~= table_view(all).remove(key@));
        None
    }

    /// Whether every entry was taken.
    pub fn is_empty(&self) -> (res: bool)
        ensures
            res == (self@ == Map::<Seq<char>, TomlView>::empty()),
    {
        let res = self.entries.is_empty();
        proof {
            if !res {
                assert(self@.dom().contains(self.entries@[0].0@));
            }
        }
        res
    }
}

proof fn lemma_table_remove(entries: Seq<(String, DeValue<'_>)>, i: int)
    requires
        distinct_keys(entries),
        0 <= i < entries.len(),
    ensures
        distinct_keys(entries.remove(i)),
        table_view(entries.remove(i)) == table_view(entries).remove(entries[i].0@),
{
    let rest = entries.remove(i);
    assert forall|a: int, b: int| 0 <= a < b < rest.len() implies (#[trigger] rest[a]).0@ != (
    #[trigger] rest[b]).0@ by {
        let x = if a < i { a } else { a + 1 };
        let y = if b < i { b } else { b + 1 };
        assert(rest[a] == entries[x]);
        assert(rest[b] == entries[y]);
    }
    lemma_table_at(entries);
    lemma_table_at(rest);
    let key = entries[i].0@;
    assert forall|k: Seq<char>|
        #![trigger table_view(rest).dom().contains(k)]
        table_view(rest).dom().contains(k) == table_view(entries).remove(key).dom().contains(k) && (
        table_view(rest).dom().contains(k) ==> table_view(rest)[k] == table_view(entries).remove(
            key,
        )[k]) by {
        if table_view(rest).dom().contains(k) {
            let a = choose|a: int| 0 <= a < rest.len() && (#[trigger] rest[a]).0@ == k;
            let x = if a < i { a } else { a + 1 };
            assert(rest[a] == entries[x]);
            assert(entries[x].0@ != key);
        }
        if table_view(entries).remove(key).dom().contains(k) {
            let x = choose|x: int| 0 <= x < entries.len() && (#[trigger] entries[x]).0@ == k;
            let a = if x < i { x } else { x - 1 };
            assert(rest[a] == entries[x]);
        }
    }
    assert(table_view(rest) =~= table_view(entries).remove(key));
}

// --- typed entries ----------------------------------------------------------

/// The entry by that key, if there is one.
pub open spec fn entry(table: Map<Seq<char>, TomlView>, key: Seq<char>) -> Option<TomlView> {
    if table.dom().contains(key) {
        Some(table[key])
    } else {
        None
    }
}

/// A boolean entry: the default where there is none, `None` on another type.
pub open spec fn flag_in(value: Option<TomlView>, default: bool) -> Option<bool> {
    match value {
        None => Some(default),
        Some(TomlView::Boolean(b)) => Some(b),
        Some(_) => None,
    }
}

/// A number entry up to `max`: the default where there is none, `None` on
/// another type or out of range.
pub open spec fn number_in(value: Option<TomlView>, default: int, max: int) -> Option<int> {
    match value {
        None => Some(default),
        Some(TomlView::Integer(n)) => if 0 <= n <= max {
            Some(n)
        } else {
            None
        },
        Some(_) => None,
    }
}

/// A text.
pub open spec fn text_in(value: TomlView) -> Option<Seq<char>> {
    match value {
        TomlView::Text(s) => Some(s),
        _ => None,
    }
}

/// An empty list or table.
pub open spec fn hollow(value: TomlView) -> bool {
    match value {
        TomlView::Array(items) => items.len() == 0,
        TomlView::Table(t) => t == Map::<Seq<char>, TomlView>::empty(),
        _ => false,
    }
}

/// `key` is the only key of a table, and what stands under it is empty.
pub open spec fn only_word(t: Map<Seq<char>, TomlView>, key: Seq<char>) -> bool {
    t.dom() == set![key] && hollow(t[key])
}

/// The word that one of several choices is named by: a text, or the key of a
/// table with one entry that is empty, as in `{ deny = {} }`.
pub open spec fn word_in(value: TomlView) -> Option<Seq<char>> {
    match value {
        TomlView::Text(s) => Some(s),
        TomlView::Table(t) => if exists|key: Seq<char>| only_word(t, key) {
            Some(choose|key: Seq<char>| only_word(t, key))
        } else {
            None
        },
        _ => None,
    }
}

/// The element at a place of a list, if there is one.
pub open spec fn element(items: Seq<TomlView>, i: int) -> Option<TomlView> {
    if 0 <= i < items.len() {
        Some(items[i])
    } else {
        None
    }
}

/// Every element is a text.
pub open spec fn all_texts(items: Seq<TomlView>) -> bool {
    forall|i: int| 0 <= i < items.len() ==> (#[trigger] items[i]) is Text
}

/// A list of texts: empty where there is no entry, `None` where the entry is
/// not a list or holds anything but texts.
pub open spec fn text_list_in(value: Option<TomlView>) -> Option<Seq<Seq<char>>> {
    match value {
        None => Some(Seq::empty()),
        Some(TomlView::Array(items)) => if all_texts(items) {
            Some(Seq::new(items.len(), |i: int| items[i]->Text_0))
        } else {
            None
        },
        Some(_) => None,
    }
}

/// What an optional closed value holds.
pub open spec fn optional_content(value: Option<DeValue<'_>>) -> Option<TomlView> {
    match value {
        Some(v) => Some(toml_content(v)),
        None => None,
    }
}

pub fn read_flag(value: Option<DeValue<'_>>, default: bool) -> (res: Option<bool>)
    ensures
        res == flag_in(optional_content(value), default),
{
    match value {
        None => Some(default),
        Some(v) => match open_toml(v) {
            TomlNode::Boolean(b) => Some(b),
            _ => None,
        },
    }
}

pub fn read_u32(value: Option<DeValue<'_>>, default: u32) -> (res: Option<u32>)
    ensures
        match res {
            Some(n) => number_in(optional_content(value), default as int, u32::MAX as int)
                == Some(n as int),
            None => number_in(optional_content(value), default as int, u32::MAX as int) is None,
        },
{
    match value {
        None => Some(default),
        Some(v) => match open_toml(v) {
            TomlNode::Integer(n) => if 0 <= n && n <= u32::MAX as i128 {
                Some(n as u32)
            } else {
                None
            },
            _ => None,
        },
    }
}

pub fn read_u64(value: Option<DeValue<'_>>, default: u64) -> (res: Option<u64>)
    ensures
        match res {
            Some(n) => number_in(optional_content(value), default as int, u64::MAX as int)
                == Some(n as int),
            None => number_in(optional_content(value), default as int, u64::MAX as int) is None,
        },
{
    match value {
        None => Some(default),
        Some(v) => match open_toml(v) {
            TomlNode::Integer(n) => if 0 <= n && n <= u64::MAX as i128 {
                Some(n as u64)
            } else {
                None
            },
            _ => None,
        },
    }
}

pub fn read_text(value: DeValue<'_>) -> (res: Option<String>)
    ensures
        match res {
            Some(s) => text_in(toml_content(value)) == Some(s@),
            None => text_in(toml_content(value)) is None,
        },
{
    match open_toml(value) {
        TomlNode::Text(s) => Some(s),
        _ => None,
    }
}

pub fn read_text_list(value: Option<DeValue<'_>>) -> (res: Option<Vec<String>>)
    ensures
        match res {
            Some(list) => text_list_in(optional_content(value)) == Some(texts(list@)),
            None => text_list_in(optional_content(value)) is None,
        },
{
    let mut list: Vec<String> = Vec::new();
    match value {
        None => {
            assert(texts(list@) =~= Seq::empty());
            Some(list)
        },
        Some(v) => match open_toml(v) {
            TomlNode::Array(items) => {
                let ghost all = items@;
                for item in it: items
                    invariant
                        it.seq() == all,
                        toml_content(v) == TomlView::Array(array_view(all)),
                        value == Some(v),
                        list.len() == it.index(),
                        forall|j: int|
                            0 <= j < list.len() ==> toml_content(all[j]) == TomlView::Text(
                                (#[trigger] list@[j])@,
                            ),
                {
                    match read_text(item) {
                        Some(s) => list.push(s),
                        None => {
                            assert(!(array_view(all)[it.index()] is Text));
                            return None;
                        },
                    }
                }
                proof {
                    let content = array_view(all);
                    assert forall|i: int| 0 <= i < content.len() implies (
                    #[trigger] content[i]) is Text by {
                        assert(content[i] == TomlView::Text(list@[i]@));
                    }
                    assert(Seq::new(content.len(), |i: int| content[i]->Text_0) =~= texts(list@));
                }
                Some(list)
            },
            _ => None,
        },
    }
}

fn is_hollow(value: DeValue<'_>) -> (res: bool)
    ensures
        res == hollow(toml_content(value)),
{
    match open_toml(value) {
        TomlNode::Array(items) => items.is_empty(),
        TomlNode::Table(entries) => {
            proof {
                lemma_table_at(entries@);
                if entries@.len() > 0 {
                    assert(table_view(entries@).dom().contains(entries@[0].0@));
                }
            }
            entries.is_empty()
        },
        _ => false,
    }
}

pub fn read_word(value: DeValue<'_>) -> (res: Option<String>)
    ensures
        match res {
            Some(s) => word_in(toml_content(value)) == Some(s@),
            None => word_in(toml_content(value)) is None,
        },
{
    match open_toml(value) {
        TomlNode::Text(s) => Some(s),
        TomlNode::Table(entries) => {
            let mut entries = entries;
            let ghost all = entries@;
            let ghost t = table_view(all);
            proof {
                lemma_table_at(all);
                assert forall|key: Seq<char>| #[trigger] only_word(t, key) implies all.len() == 1
                    && all[0].0@ == key by {
                    assert(t.dom().contains(key));
                    if all.len() > 1 {
                        assert(t.dom().contains(all[0].0@));
                        assert(t.dom().contains(all[1].0@));
                    }
                    assert(t.dom().contains(all[0].0@));
                }
            }
            if entries.len() != 1 {
                return None;
            }
            let (word, inner) = entries.remove(0);
            if is_hollow(inner) {
                proof {
                    assert forall|k: Seq<char>| #[trigger]
                        t.dom().contains(k) == set![word@].contains(k) by {
                        if t.dom().contains(k) {
                            let i = choose|i: int|
                                0 <= i < all.len() && (#[trigger] all[i]).0@ == k;
                        }
                        assert(t.dom().contains(all[0].0@));
                    }
                    assert(t.dom() =~= set![word@]);
                    assert(only_word(t, word@));
                }
                Some(word)
            } else {
                proof {
                    assert forall|key: Seq<char>| !(#[trigger] only_word(t, key)) by {
                        assert(t[all[0].0@] == toml_content(inner));
                    }
                }
                None
            }
        },
        _ => None,
    }
}

/// Takes the first element off a list.
pub(crate) fn shift<'a>(items: &mut Vec<DeValue<'a>>) -> (res: Option<DeValue<'a>>)
    ensures
        optional_content(res) == element(array_view(old(items)@), 0),
        forall|i: int|
            0 <= i ==> #[trigger] element(array_view(final(items)@), i) == element(
                array_view(old(items)@),
                i + 1,
            ),
{
    if items.is_empty() {
        None
    } else {
        Some(items.remove(0))
    }
}

} // verus!
