use vstd::prelude::*;
use crate::strings::{
    lemma_text_order_total, lemma_text_order_transitive, str_before, str_eq, text_before,
};

verus! {

/// Whether the keys ascend strictly in the order of strings.
pub open spec fn ascending(keys: Seq<Seq<char>>) -> bool {
    forall|i: int, j: int| 0 <= i < j < keys.len() ==> text_before(keys[i], keys[j])
}

/// In an ascending list no key occurs twice.
pub proof fn lemma_ascending_distinct(keys: Seq<Seq<char>>, i: int, j: int)
    requires
        ascending(keys),
        0 <= i < keys.len(),
        0 <= j < keys.len(),
        keys[i] == keys[j],
    ensures
        i == j,
{
    lemma_text_order_total(keys[i], keys[j]);
}

/// A map from strings to values that keeps its entries in the order of the keys.
pub struct KeyedMap<T> {
    entries: Vec<(String, T)>,
}

impl<T> KeyedMap<T> {
    /// The keys in ascending order.
    pub closed spec fn keys(&self) -> Seq<Seq<char>> {
        Seq::new(self.entries@.len(), |i: int| self.entries@[i].0@)
    }

    /// The values in the order of their keys.
    pub closed spec fn values(&self) -> Seq<T> {
        Seq::new(self.entries@.len(), |i: int| self.entries@[i].1)
    }

    /// The keys ascend strictly, so none occurs twice.
    pub closed spec fn wf(&self) -> bool {
        ascending(self.keys())
    }

    /// Whether `key` has an entry.
    pub open spec fn contains(&self, key: Seq<char>) -> bool {
        self.keys().contains(key)
    }

    /// The position of the entry of `key`.
    pub open spec fn index_of(&self, key: Seq<char>) -> int {
        choose|i: int| 0 <= i < self.keys().len() && self.keys()[i] == key
    }

    /// The value of `key`.
    pub open spec fn value_of(&self, key: Seq<char>) -> T {
        self.values()[self.index_of(key)]
    }

    /// There are as many values as keys, and a key is found at the
    /// position where it stands.
    pub proof fn lemma_index(&self, i: int)
        requires
            self.wf(),
            0 <= i < self.keys().len(),
        ensures
            self.values().len() == self.keys().len(),
            self.contains(self.keys()[i]),
            self.index_of(self.keys()[i]) == i,
            self.value_of(self.keys()[i]) == self.values()[i],
    {
        let j = self.index_of(self.keys()[i]);
        lemma_ascending_distinct(self.keys(), i, j);
    }

    /// The keys of a well-formed map ascend.
    pub proof fn lemma_ascending(&self)
        requires
            self.wf(),
        ensures
            ascending(self.keys()),
    {
    }

    /// There are as many values as keys.
    pub proof fn lemma_len(&self)
        ensures
            self.values().len() == self.keys().len(),
    {
    }

    pub fn new() -> (m: Self)
        ensures
            m.wf(),
            m.keys() == Seq::<Seq<char>>::empty(),
            m.values() == Seq::<T>::empty(),
    {
        let m = KeyedMap { entries: Vec::new() };
        assert(m.keys() =~= Seq::<Seq<char>>::empty());
        assert(m.values() =~= Seq::<T>::empty());
        m
    }

    pub fn len(&self) -> (n: usize)
        ensures
            n == self.keys().len(),
            n == self.values().len(),
    {
        self.entries.len()
    }

    pub fn is_empty(&self) -> (b: bool)
        ensures
            b == (self.keys().len() == 0),
    {
        self.entries.len() == 0
    }

    /// The key at position `i`.
    pub fn key(&self, i: usize) -> (k: &String)
        requires
            i < self.keys().len(),
        ensures
            k@ == self.keys()[i as int],
    {
        &self.entries[i].0
    }

    /// The value at position `i`.
    pub fn value(&self, i: usize) -> (v: &T)
        requires
            i < self.keys().len(),
        ensures
            *v == self.values()[i as int],
    {
        &self.entries[i].1
    }

    /// A mutable borrow of the value at position `i`.
    pub fn value_mut(&mut self, i: usize) -> (v: &mut T)
        requires
            i < old(self).keys().len(),
        ensures
            *v == old(self).values()[i as int],
            final(self).keys() =~= old(self).keys(),
            final(self).values() =~= old(self).values().update(i as int, *final(v)),
            final(self).wf() == old(self).wf(),
    {
        &mut self.entries[i].1
    }

    /// The position of the first key that does not come before `key`.
    fn lower_bound(&self, key: &str) -> (i: usize)
        requires
            self.wf(),
        ensures
            i <= self.keys().len(),
            forall|j: int| 0 <= j < i ==> text_before(self.keys()[j], key@),
            forall|j: int| i <= j < self.keys().len() ==> !text_before(self.keys()[j], key@),
    {
        let mut i: usize = 0;
        while i < self.entries.len()
            invariant
                self.wf(),
                i <= self.keys().len(),
                forall|j: int| 0 <= j < i ==> text_before(self.keys()[j], key@),
            decreases self.entries@.len() - i,
        {
            if !str_before(self.entries[i].0.as_str(), key) {
                proof {
                    assert forall|j: int| i <= j < self.keys().len() implies !text_before(
                        self.keys()[j],
                        key@,
                    ) by {
                        if j > i && text_before(self.keys()[j], key@) {
                            lemma_text_order_transitive(self.keys()[i as int], self.keys()[j], key@);
                        }
                    }
                }
                return i;
            }
            i += 1;
        }
        i
    }

    /// The position of the entry of `key`, if it has one.
    pub fn position(&self, key: &str) -> (r: Option<usize>)
        requires
            self.wf(),
        ensures
            match r {
                Some(i) => i < self.keys().len() && self.keys()[i as int] == key@ && i
                    == self.index_of(key@),
                None => !self.contains(key@),
            },
    {
        let i = self.lower_bound(key);
        if i < self.entries.len() && str_eq(self.entries[i].0.as_str(), key) {
            proof {
                self.lemma_index(i as int);
            }
            Some(i)
        } else {
            proof {
                if self.contains(key@) {
                    let j = choose|j: int| 0 <= j < self.keys().len() && self.keys()[j] == key@;
                    lemma_text_order_total(self.keys()[j], key@);
                    if j > i {
                        lemma_text_order_total(self.keys()[i as int], key@);
                        lemma_text_order_transitive(key@, self.keys()[i as int], self.keys()[j]);
                    }
                }
            }
            None
        }
    }

    pub fn contains_key(&self, key: &str) -> (b: bool)
        requires
            self.wf(),
        ensures
            b == self.contains(key@),
    {
        self.position(key).is_some()
    }

    /// The value of `key`, if it has one.
    pub fn get(&self, key: &str) -> (r: Option<&T>)
        requires
            self.wf(),
        ensures
            match r {
                Some(v) => self.contains(key@) && *v == self.value_of(key@),
                None => !self.contains(key@),
            },
    {
        match self.position(key) {
            Some(i) => Some(&self.entries[i].1),
            None => None,
        }
    }

    /// Gives `key` the value `value`, at the place that the order of the keys
    /// assigns it, and returns the value it had.
    pub fn insert(&mut self, key: String, value: T) -> (r: Option<T>)
        requires
            old(self).wf(),
        ensures
            final(self).wf(),
            final(self).contains(key@),
            final(self).value_of(key@) == value,
            forall|k: Seq<char>| final(self).contains(k) == (old(self).contains(k) || k == key@),
            forall|k: Seq<char>|
                k != key@ && old(self).contains(k) ==> final(self).value_of(k) == old(
                    self,
                ).value_of(k),
            match r {
                Some(before) => {
                    &&& old(self).contains(key@)
                    &&& before == old(self).value_of(key@)
                    &&& final(self).keys() == old(self).keys()
                    &&& final(self).values() == old(self).values().update(
                        old(self).index_of(key@),
                        value,
                    )
                },
                None => {
                    &&& !old(self).contains(key@)
                    &&& exists|at: int|
                        0 <= at <= old(self).keys().len() && final(self).keys() == old(
                            self,
                        ).keys().insert(at, key@) && final(self).values() == old(
                            self,
                        ).values().insert(at, value)
                },
            },
    {
        let i = self.lower_bound(key.as_str());
        if i < self.entries.len() && str_eq(self.entries[i].0.as_str(), key.as_str()) {
            proof {
                self.lemma_index(i as int);
            }
            let ghost given = value;
            let mut value = value;
            core::mem::swap(&mut self.entries[i].1, &mut value);
            proof {
                assert(self.keys() =~= old(self).keys());
                assert(self.values() =~= old(self).values().update(i as int, given));
                self.lemma_index(i as int);
                assert forall|k: Seq<char>| k != key@ && old(self).contains(k) implies self.value_of(
                    k,
                ) == old(self).value_of(k) by {
                    let j = old(self).index_of(k);
                    old(self).lemma_index(j);
                    self.lemma_index(j);
                }
            }
            Some(value)
        } else {
            proof {
                if old(self).contains(key@) {
                    let j = choose|j: int|
                        0 <= j < old(self).keys().len() && old(self).keys()[j] == key@;
                    lemma_text_order_total(old(self).keys()[j], key@);
                    if j > i {
                        lemma_text_order_total(old(self).keys()[i as int], key@);
                        lemma_text_order_transitive(
                            key@,
                            old(self).keys()[i as int],
                            old(self).keys()[j],
                        );
                    }
                }
                if i < old(self).keys().len() {
                    lemma_text_order_total(old(self).keys()[i as int], key@);
                }
            }
            self.entries.insert(i, (key, value));
            proof {
                assert(self.keys() =~= old(self).keys().insert(i as int, key@));
                assert(self.values() =~= old(self).values().insert(i as int, value));
                let keys = self.keys();
                assert forall|a: int, b: int| 0 <= a < b < keys.len() implies text_before(
                    keys[a],
                    keys[b],
                ) by {
                    let oa = if a < i { a } else { a - 1 };
                    let ob = if b < i { b } else { b - 1 };
                    if a == i {
                        assert(keys[b] == old(self).keys()[ob]);
                        if ob > i {
                            lemma_text_order_transitive(
                                key@,
                                old(self).keys()[i as int],
                                old(self).keys()[ob],
                            );
                        }
                    } else if b == i {
                        assert(keys[a] == old(self).keys()[oa]);
                    } else {
                        assert(keys[a] == old(self).keys()[oa]);
                        assert(keys[b] == old(self).keys()[ob]);
                    }
                }
                assert(keys[i as int] == key@);
                self.lemma_index(i as int);
                assert forall|k: Seq<char>| self.contains(k) == (old(self).contains(k) || k
                    == key@) by {
                    if self.contains(k) && k != key@ {
                        let j = choose|j: int| 0 <= j < keys.len() && keys[j] == k;
                        let oj = if j < i { j } else { j - 1 };
                        assert(old(self).keys()[oj] == k);
                    }
                    if old(self).contains(k) {
                        let oj = choose|oj: int|
                            0 <= oj < old(self).keys().len() && old(self).keys()[oj] == k;
                        let j = if oj < i { oj } else { oj + 1 };
                        assert(keys[j] == k);
                    }
                }
                assert forall|k: Seq<char>| k != key@ && old(self).contains(k) implies self.value_of(
                    k,
                ) == old(self).value_of(k) by {
                    let oj = old(self).index_of(k);
                    old(self).lemma_index(oj);
                    let j = if oj < i { oj } else { oj + 1 };
                    assert(keys[j] == k);
                    self.lemma_index(j);
                }
            }
            None
        }
    }

    /// Appends an entry whose key comes after every key of the map.
    pub fn push(&mut self, key: String, value: T)
        requires
            old(self).wf(),
            forall|i: int|
                0 <= i < old(self).keys().len() ==> text_before(old(self).keys()[i], key@),
        ensures
            final(self).wf(),
            final(self).keys() == old(self).keys().push(key@),
            final(self).values() == old(self).values().push(value),
    {
        self.entries.push((key, value));
        proof {
            assert(self.keys() =~= old(self).keys().push(key@));
            assert(self.values() =~= old(self).values().push(value));
            let keys = self.keys();
            assert forall|a: int, b: int| 0 <= a < b < keys.len() implies text_before(
                keys[a],
                keys[b],
            ) by {
                assert(keys[a] == old(self).keys()[a]);
                if b < old(self).keys().len() {
                    assert(keys[b] == old(self).keys()[b]);
                }
            }
        }
    }
}

} // verus!
