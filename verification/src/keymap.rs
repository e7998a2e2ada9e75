//! A map from issue keys, kept in ascending order of the keys.

use vstd::prelude::*;
use vstd::string::*;

use crate::keyset::{ascending, lemma_insert_ascending, texts};
use crate::text::{before, is_before, same_text};
use crate::text::{lemma_before_irreflexive, lemma_before_total};

verus! {

/// A map from texts, in ascending order of the texts.
pub struct KeyMap<V> {
    keys: Vec<String>,
    values: Vec<V>,
}

/// The map that two lists of the same length stand for.
spec fn paired<V>(keys: Seq<Seq<char>>, values: Seq<V>) -> Map<Seq<char>, V> {
    Map::new(|k: Seq<char>| keys.contains(k), |k: Seq<char>| values[keys.index_of(k)])
}

impl<V> View for KeyMap<V> {
    type V = Map<Seq<char>, V>;

    closed spec fn view(&self) -> Map<Seq<char>, V> {
        paired(texts(self.keys@), self.values@)
    }
}

/// An ascending list holds a text at one place only.
proof fn lemma_index_of(keys: Seq<Seq<char>>, i: int)
    requires
        ascending(keys),
        0 <= i < keys.len(),
    ensures
        keys.contains(keys[i]),
        keys.index_of(keys[i]) == i,
{
    let j = keys.index_of(keys[i]);
    assert(keys.contains(keys[i]));
    assert(0 <= j < keys.len() && keys[j] == keys[i]);
    lemma_before_irreflexive(keys[i]);
    if j < i {
        assert(before(keys[j], keys[i]));
    } else if i < j {
        assert(before(keys[i], keys[j]));
    }
}

impl<V> KeyMap<V> {
    #[verifier::type_invariant]
    spec fn ordered(&self) -> bool {
        ascending(texts(self.keys@)) && self.keys@.len() == self.values@.len()
    }

    /// The empty map.
    pub fn new() -> (res: KeyMap<V>)
        ensures
            res@ == Map::<Seq<char>, V>::empty(),
    {
        let res = KeyMap { keys: Vec::new(), values: Vec::new() };
        assert(res@ =~= Map::<Seq<char>, V>::empty());
        res
    }

    /// What stands under `key`.
    pub fn get(&self, key: &str) -> (res: Option<&V>)
        ensures
            match res {
                Some(v) => self@.dom().contains(key@) && self@[key@] == *v,
                None => !self@.dom().contains(key@),
            },
    {
        proof {
            use_type_invariant(self);
        }
        let ghost keys = texts(self.keys@);
        let mut i: usize = 0;
        while i < self.keys.len()
            invariant
                i <= self.keys.len(),
                keys == texts(self.keys@),
                ascending(keys),
                self.keys@.len() == self.values@.len(),
                forall|j: int| 0 <= j < i ==> #[trigger] keys[j] != key@,
            decreases self.keys.len() - i,
        {
            if same_text(self.keys[i].as_str(), key) {
                proof {
                    lemma_index_of(keys, i as int);
                }
                return Some(&self.values[i]);
            }
            i += 1;
        }
        None
    }

    /// Puts `value` under `key`, in place of what stood there.
    pub fn insert(&mut self, key: &str, value: V)
        ensures
            final(self)@ == old(self)@.insert(key@, value),
    {
        proof {
            use_type_invariant(&*self);
        }
        let ghost start = self@;
        let mut keys: Vec<String> = Vec::new();
        let mut values: Vec<V> = Vec::new();
        let ghost list = texts(self.keys@);
        let ghost held = self.values@;
        let mut whole = KeyMap { keys, values };
        std::mem::swap(self, &mut whole);
        keys = whole.keys;
        values = whole.values;
        let mut i: usize = 0;
        while i < keys.len() && is_before(keys[i].as_str(), key)
            invariant
                i <= keys.len(),
                list == texts(keys@),
                forall|k: int| 0 <= k < i ==> before(#[trigger] list[k], key@),
            decreases keys.len() - i,
        {
            i += 1;
        }
        if i < keys.len() && same_text(keys[i].as_str(), key) {
            values.set(i, value);
            proof {
                lemma_set_pair(list, held, i as int, value);
            }
        } else {
            proof {
                if i < keys.len() {
                    lemma_before_total(list[i as int], key@);
                }
                lemma_insert_ascending(list, i as int, key@);
                lemma_insert_pair(list, held, i as int, key@, value);
            }
            keys.insert(i, key.to_owned());
            values.insert(i, value);
            assert(texts(keys@) =~= list.insert(i as int, key@));
        }
        *self = KeyMap { keys, values };
    }
}

/// Changing the value at a place changes what the map holds under its key.
proof fn lemma_set_pair<V>(keys: Seq<Seq<char>>, values: Seq<V>, i: int, value: V)
    requires
        ascending(keys),
        keys.len() == values.len(),
        0 <= i < keys.len(),
    ensures
        paired(keys, values.update(i, value)) == paired(keys, values).insert(keys[i], value),
{
    lemma_index_of(keys, i);
    assert forall|k: Seq<char>| keys.contains(k) implies paired(keys, values.update(i, value))[k]
        == #[trigger] paired(keys, values).insert(keys[i], value)[k] by {
        let j = keys.index_of(k);
        assert(keys[j] == k);
        if j == i {
            assert(k == keys[i]);
        }
    }
    assert(paired(keys, values.update(i, value)) =~= paired(keys, values).insert(keys[i], value));
}

/// A new key and its value, put in at the same place, join the map.
proof fn lemma_insert_pair<V>(
    keys: Seq<Seq<char>>,
    values: Seq<V>,
    i: int,
    key: Seq<char>,
    value: V,
)
    requires
        ascending(keys),
        ascending(keys.insert(i, key)),
        keys.len() == values.len(),
        0 <= i <= keys.len(),
    ensures
        paired(keys.insert(i, key), values.insert(i, value)) == paired(keys, values).insert(
            key,
            value,
        ),
{
    let after = keys.insert(i, key);
    lemma_index_of(after, i);
    assert(after[i] == key);
    assert forall|k: Seq<char>| #[trigger]
        after.contains(k) == paired(keys, values).insert(key, value).dom().contains(k) by {
        if keys.contains(k) {
            let j = keys.index_of(k);
            assert(keys[j] == k);
            if j < i {
                assert(after[j] == k);
            } else {
                assert(after[j + 1] == k);
            }
        }
        if after.contains(k) && k != key {
            let j = after.index_of(k);
            assert(after[j] == k);
            if j < i {
                assert(keys[j] == k);
            } else {
                assert(keys[j - 1] == k);
            }
        }
    }
    assert forall|k: Seq<char>| after.contains(k) implies #[trigger] paired(
        after,
        values.insert(i, value),
    )[k] == paired(keys, values).insert(key, value)[k] by {
        if k != key {
            let j = keys.index_of(k);
            assert(keys.contains(k));
            assert(keys[j] == k);
            if j < i {
                lemma_index_of(after, j);
                assert(after[j] == k);
            } else {
                lemma_index_of(after, j + 1);
                assert(after[j + 1] == k);
            }
        }
    }
    assert(paired(after, values.insert(i, value)) =~= paired(keys, values).insert(key, value));
}

} // verus!
