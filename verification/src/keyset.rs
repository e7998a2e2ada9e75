//! A set of issue keys, kept in ascending order.

use vstd::prelude::*;
use vstd::string::*;

use crate::text::{before, eq_ignore_case, is_before, same_ignoring_case, same_text};
use crate::text::{lemma_before_irreflexive, lemma_before_total, lemma_before_transitive};

verus! {

/// The character sequences of a list of texts.
pub open spec fn texts(list: Seq<String>) -> Seq<Seq<char>> {
    Seq::new(list.len(), |i: int| list[i]@)
}

/// Each text comes before all that follow it; so none occurs twice.
pub open spec fn ascending(list: Seq<Seq<char>>) -> bool {
    forall|i: int, j: int| 0 <= i < j < list.len() ==> before(#[trigger] list[i], #[trigger] list[j])
}

/// A key in `set` equals `key` but for ASCII case.
pub open spec fn admits(set: Set<Seq<char>>, key: Seq<char>) -> bool {
    exists|d: Seq<char>| #[trigger] set.contains(d) && same_ignoring_case(d, key)
}

/// A list holds a text equal to `key` but for ASCII case.
pub open spec fn list_admits(list: Seq<Seq<char>>, key: Seq<char>) -> bool {
    exists|i: int| 0 <= i < list.len() && same_ignoring_case(#[trigger] list[i], key)
}

/// Whether a list holds a text equal to `key` but for ASCII case.
pub fn list_contains_ignoring_case(list: &Vec<String>, key: &str) -> (res: bool)
    ensures
        res == list_admits(texts(list@), key@),
{
    let mut i: usize = 0;
    while i < list.len()
        invariant
            i <= list.len(),
            forall|k: int| 0 <= k < i ==> !same_ignoring_case(#[trigger] texts(list@)[k], key@),
        decreases list.len() - i,
    {
        if eq_ignore_case(list[i].as_str(), key) {
            assert(same_ignoring_case(texts(list@)[i as int], key@));
            return true;
        }
        i += 1;
    }
    false
}

/// A set of texts in ascending order.
#[derive(Debug)]
pub struct KeySet {
    keys: Vec<String>,
}

impl View for KeySet {
    type V = Set<Seq<char>>;

    closed spec fn view(&self) -> Set<Seq<char>> {
        texts(self.keys@).to_set()
    }
}

impl KeySet {
    #[verifier::type_invariant]
    spec fn ordered(&self) -> bool {
        ascending(texts(self.keys@))
    }

    /// The empty set.
    pub fn new() -> (res: KeySet)
        ensures
            res@ == Set::<Seq<char>>::empty(),
    {
        let res = KeySet { keys: Vec::new() };
        assert(res@ =~= Set::<Seq<char>>::empty());
        res
    }

    /// The keys, in ascending order.
    pub fn keys(&self) -> (res: &Vec<String>)
        ensures
            texts(res@) == sorted(self@),
            ascending(sorted(self@)),
            sorted(self@).to_set() == self@,
    {
        proof {
            use_type_invariant(self);
            lemma_sorted(texts(self.keys@));
        }
        &self.keys
    }

    /// The keys, in ascending order.
    pub fn into_keys(self) -> (res: Vec<String>)
        ensures
            ascending(texts(res@)),
            texts(res@).to_set() == self@,
            forall|k: Seq<char>| #[trigger] texts(res@).contains(k) == self@.contains(k),
    {
        proof {
            use_type_invariant(&self);
            assert forall|k: Seq<char>| #[trigger]
                texts(self.keys@).contains(k) == self@.contains(k) by {}
        }
        self.keys
    }

    /// A copy.
    pub fn copy(&self) -> (res: KeySet)
        ensures
            res@ == self@,
    {
        proof {
            use_type_invariant(self);
        }
        let keys = self.keys.clone();
        assert(texts(keys@) =~= texts(self.keys@));
        KeySet { keys }
    }

    pub fn is_empty(&self) -> (res: bool)
        ensures
            res == (self@ == Set::<Seq<char>>::empty()),
    {
        let res = self.keys.is_empty();
        proof {
            if res {
                assert(self@ =~= Set::<Seq<char>>::empty());
            } else {
                assert(texts(self.keys@).contains(texts(self.keys@)[0]));
                assert(self@.contains(texts(self.keys@)[0]));
            }
        }
        res
    }

    /// Whether the set holds `key`.
    pub fn contains(&self, key: &str) -> (res: bool)
        ensures
            res == self@.contains(key@),
    {
        let mut i: usize = 0;
        while i < self.keys.len()
            invariant
                i <= self.keys.len(),
                forall|k: int| 0 <= k < i ==> #[trigger] texts(self.keys@)[k] != key@,
            decreases self.keys.len() - i,
        {
            if same_text(self.keys[i].as_str(), key) {
                assert(texts(self.keys@)[i as int] == key@);
                return true;
            }
            i += 1;
        }
        false
    }

    /// Whether the set holds a key equal to `key` but for ASCII case.
    pub fn admits_key(&self, key: &str) -> (res: bool)
        ensures
            res == admits(self@, key@),
    {
        let res = list_contains_ignoring_case(&self.keys, key);
        proof {
            let list = texts(self.keys@);
            if res {
                let i = choose|i: int|
                    0 <= i < list.len() && same_ignoring_case(#[trigger] list[i], key@);
                assert(self@.contains(list[i]));
            }
            if admits(self@, key@) {
                let d = choose|d: Seq<char>| #[trigger]
                    self@.contains(d) && same_ignoring_case(d, key@);
                let i = choose|i: int| 0 <= i < list.len() && list[i] == d;
                assert(same_ignoring_case(list[i], key@));
            }
        }
        res
    }

    /// Adds `key`.
    pub fn insert(&mut self, key: &str)
        ensures
            final(self)@ == old(self)@.insert(key@),
    {
        proof {
            use_type_invariant(&*self);
        }
        let ghost start = self@;
        let mut keys: Vec<String> = Vec::new();
        std::mem::swap(&mut keys, &mut self.keys);
        let ghost list = texts(keys@);
        assert(list.to_set() == start);
        let mut i: usize = 0;
        while i < keys.len() && is_before(keys[i].as_str(), key)
            invariant
                i <= keys.len(),
                list == texts(keys@),
                forall|k: int| 0 <= k < i ==> before(#[trigger] list[k], key@),
            decreases keys.len() - i,
        {
            i += 1;
        }
        if i < keys.len() && same_text(keys[i].as_str(), key) {
            proof {
                assert(list[i as int] == key@);
                assert(list.to_set() =~= start.insert(key@));
            }
        } else {
            proof {
                if i < keys.len() {
                    lemma_before_total(list[i as int], key@);
                }
                let after = list.insert(i as int, key@);
                lemma_insert_ascending(list, i as int, key@);
                assert forall|t: Seq<char>| #[trigger]
                    after.to_set().contains(t) == start.insert(key@).contains(t) by {
                    if start.insert(key@).contains(t) {
                        if t == key@ {
                            assert(after[i as int] == t);
                        } else {
                            let k = choose|k: int| 0 <= k < list.len() && list[k] == t;
                            if k < i {
                                assert(after[k] == t);
                            } else {
                                assert(after[k + 1] == t);
                            }
                        }
                    }
                    if after.to_set().contains(t) {
                        let k = choose|k: int| 0 <= k < after.len() && after[k] == t;
                        if k < i {
                            assert(list[k] == t);
                        } else if k > i {
                            assert(list[k - 1] == t);
                        }
                    }
                }
                assert(after.to_set() =~= start.insert(key@));
            }
            keys.insert(i, key.to_owned());
            assert(texts(keys@) =~= list.insert(i as int, key@));
        }
        self.keys = keys;
    }

    /// Adds every key of a list.
    pub fn extend(&mut self, list: &Vec<String>)
        ensures
            final(self)@ == old(self)@.union(texts(list@).to_set()),
    {
        let ghost start = self@;
        let mut i: usize = 0;
        assert(self@ =~= start.union(texts(list@).take(0).to_set()));
        while i < list.len()
            invariant
                i <= list.len(),
                self@ == start.union(texts(list@).take(i as int).to_set()),
            decreases list.len() - i,
        {
            self.insert(list[i].as_str());
            proof {
                let whole = texts(list@);
                let a = whole.take(i as int);
                let b = whole.take(i + 1);
                assert(b =~= a.push(whole[i as int]));
                assert forall|t: Seq<char>| #[trigger]
                    b.to_set().contains(t) == a.to_set().insert(whole[i as int]).contains(t) by {
                    if a.contains(t) {
                        let k = choose|k: int| 0 <= k < a.len() && a[k] == t;
                        assert(b[k] == t);
                    }
                    if t == whole[i as int] {
                        assert(b[i as int] == t);
                    }
                }
                assert(self@ =~= start.union(b.to_set()));
            }
            i += 1;
        }
        assert(texts(list@).take(list@.len() as int) =~= texts(list@));
    }
}

/// Putting a text where it belongs keeps the order.
pub proof fn lemma_insert_ascending(list: Seq<Seq<char>>, i: int, key: Seq<char>)
    requires
        ascending(list),
        0 <= i <= list.len(),
        forall|k: int| 0 <= k < i ==> before(#[trigger] list[k], key),
        i < list.len() ==> before(key, list[i]),
    ensures
        ascending(list.insert(i, key)),
{
    let after = list.insert(i, key);
    assert forall|a: int, b: int| 0 <= a < b < after.len() implies before(
        #[trigger] after[a],
        #[trigger] after[b],
    ) by {
        let x = if a < i { a } else { a - 1 };
        let y = if b < i { b } else { b - 1 };
        if a != i && b != i {
            assert(after[a] == list[x]);
            assert(after[b] == list[y]);
        } else if b == i {
            assert(after[a] == list[a]);
        } else {
            assert(after[b] == list[b - 1]);
            if b - 1 > i {
                lemma_before_transitive(key, list[i], list[b - 1]);
            }
        }
    }
}

/// The texts of a set, in ascending order.
pub open spec fn sorted(set: Set<Seq<char>>) -> Seq<Seq<char>> {
    choose|list: Seq<Seq<char>>| #[trigger] ascending(list) && list.to_set() == set
}

/// An ascending list is the one that its texts make up.
pub proof fn lemma_sorted(list: Seq<Seq<char>>)
    requires
        ascending(list),
    ensures
        sorted(list.to_set()) == list,
{
    lemma_ascending_unique(list, sorted(list.to_set()));
}

/// Two ascending lists of the same texts are the same list.
pub proof fn lemma_ascending_unique(a: Seq<Seq<char>>, b: Seq<Seq<char>>)
    requires
        ascending(a),
        ascending(b),
        a.to_set() == b.to_set(),
    ensures
        a == b,
    decreases a.len(),
{
    if a.len() == 0 || b.len() == 0 {
        if a.len() > 0 {
            assert(a.to_set().contains(a[0]));
        }
        if b.len() > 0 {
            assert(b.to_set().contains(b[0]));
        }
        assert(a =~= b);
    } else {
        let x = a.last();
        let y = b.last();
        assert(a.to_set().contains(x));
        assert(b.to_set().contains(y));
        let i = choose|i: int| 0 <= i < b.len() && b[i] == x;
        let j = choose|j: int| 0 <= j < a.len() && a[j] == y;
        if i < b.len() - 1 && j < a.len() - 1 {
            assert(before(b[i], b[b.len() - 1]));
            assert(before(a[j], a[a.len() - 1]));
            lemma_before_transitive(x, y, x);
            lemma_before_irreflexive(x);
        }
        assert(x == y);
        assert forall|t: Seq<char>| #[trigger]
            a.drop_last().to_set().contains(t) == b.drop_last().to_set().contains(t) by {
            lemma_drop_last_members(a, t);
            lemma_drop_last_members(b, t);
        }
        assert(a.drop_last().to_set() =~= b.drop_last().to_set());
        lemma_ascending_unique(a.drop_last(), b.drop_last());
        assert(a =~= a.drop_last().push(x));
        assert(b =~= b.drop_last().push(y));
    }
}

proof fn lemma_drop_last_members(a: Seq<Seq<char>>, t: Seq<char>)
    requires
        ascending(a),
        a.len() > 0,
    ensures
        a.drop_last().to_set().contains(t) == (a.to_set().contains(t) && t != a.last()),
{
    if a.drop_last().contains(t) {
        let k = choose|k: int| 0 <= k < a.drop_last().len() && a.drop_last()[k] == t;
        assert(a[k] == t);
        assert(before(a[k], a[a.len() - 1]));
        lemma_before_irreflexive(t);
    }
    if a.contains(t) && t != a.last() {
        let k = choose|k: int| 0 <= k < a.len() && a[k] == t;
        assert(a.drop_last()[k] == t);
    }
}

} // verus!
