use vstd::prelude::*;
use crate::id::EntityIdRaw;

verus! {

/// Whether no key occurs twice among the entries.
spec fn distinct_keys<V>(s: Seq<(EntityIdRaw, V)>) -> bool {
    forall|i: int, j: int| 0 <= i < s.len() && 0 <= j < s.len() && i != j ==> s[i].0 != s[j].0
}

/// Whether some entry of `s` has the key `k`.
spec fn has_key<V>(s: Seq<(EntityIdRaw, V)>, k: EntityIdRaw) -> bool {
    exists|i: int| 0 <= i < s.len() && #[trigger] s[i].0 == k
}

/// The position of an entry of `s` with the key `k`.
spec fn key_index<V>(s: Seq<(EntityIdRaw, V)>, k: EntityIdRaw) -> int {
    choose|i: int| 0 <= i < s.len() && #[trigger] s[i].0 == k
}

/// The map that a list of entries with distinct keys stands for.
spec fn entries_to_map<V>(s: Seq<(EntityIdRaw, V)>) -> Map<EntityIdRaw, V> {
    Map::new(|k: EntityIdRaw| has_key(s, k), |k: EntityIdRaw| s[key_index(s, k)].1)
}

proof fn lemma_entries_at<V>(s: Seq<(EntityIdRaw, V)>, i: int)
    requires
        distinct_keys(s),
        0 <= i < s.len(),
    ensures
        has_key(s, s[i].0),
        key_index(s, s[i].0) == i,
        entries_to_map(s).contains_key(s[i].0),
        entries_to_map(s)[s[i].0] == s[i].1,
{
    let k = s[i].0;
    assert(s[i].0 == k);
    let j = key_index(s, k);
    assert(0 <= j < s.len() && s[j].0 == k);
}

proof fn lemma_entries_push<V>(s: Seq<(EntityIdRaw, V)>, k: EntityIdRaw, v: V)
    requires
        distinct_keys(s),
        !has_key(s, k),
    ensures
        distinct_keys(s.push((k, v))),
        entries_to_map(s.push((k, v))) == entries_to_map(s).insert(k, v),
{
    let t = s.push((k, v));
    assert forall|i: int, j: int| 0 <= i < t.len() && 0 <= j < t.len() && i != j implies t[i].0
        != t[j].0 by {
        if i < s.len() {
            assert(s[i].0 == t[i].0);
        }
        if j < s.len() {
            assert(s[j].0 == t[j].0);
        }
    }
    assert forall|q: EntityIdRaw| has_key(t, q) <==> (has_key(s, q) || q == k) by {
        if has_key(t, q) {
            let i = key_index(t, q);
            if i < s.len() {
                assert(s[i].0 == q);
            }
        }
        if has_key(s, q) {
            let i = key_index(s, q);
            assert(t[i].0 == q);
        }
        if q == k {
            assert(t[s.len() as int].0 == q);
        }
    }
    assert forall|q: EntityIdRaw| has_key(t, q) implies #[trigger] entries_to_map(t)[q]
        == entries_to_map(s).insert(k, v)[q] by {
        let i = key_index(t, q);
        lemma_entries_at(t, i);
        if i < s.len() {
            assert(s[i].0 == q);
            lemma_entries_at(s, i);
        }
    }
    assert(entries_to_map(t) =~= entries_to_map(s).insert(k, v));
}

proof fn lemma_entries_update<V>(s: Seq<(EntityIdRaw, V)>, i: int, v: V)
    requires
        distinct_keys(s),
        0 <= i < s.len(),
    ensures
        distinct_keys(s.update(i, (s[i].0, v))),
        entries_to_map(s.update(i, (s[i].0, v))) == entries_to_map(s).insert(s[i].0, v),
{
    let k = s[i].0;
    let t = s.update(i, (k, v));
    assert forall|a: int, b: int| 0 <= a < t.len() && 0 <= b < t.len() && a != b implies t[a].0
        != t[b].0 by {
        assert(t[a].0 == s[a].0);
        assert(t[b].0 == s[b].0);
    }
    assert forall|q: EntityIdRaw| has_key(t, q) <==> (has_key(s, q) || q == k) by {
        if has_key(t, q) {
            let j = key_index(t, q);
            assert(s[j].0 == q);
        }
        if has_key(s, q) {
            let j = key_index(s, q);
            assert(t[j].0 == q);
        }
        if q == k {
            assert(t[i].0 == q);
        }
    }
    assert forall|q: EntityIdRaw| has_key(t, q) implies #[trigger] entries_to_map(t)[q]
        == entries_to_map(s).insert(k, v)[q] by {
        let j = key_index(t, q);
        lemma_entries_at(t, j);
        if j != i {
            assert(s[j].0 == q);
            lemma_entries_at(s, j);
        }
    }
    assert(entries_to_map(t) =~= entries_to_map(s).insert(k, v));
}

proof fn lemma_entries_swap_remove<V>(s: Seq<(EntityIdRaw, V)>, i: int)
    requires
        distinct_keys(s),
        0 <= i < s.len(),
    ensures
        distinct_keys(s.update(i, s.last()).drop_last()),
        entries_to_map(s.update(i, s.last()).drop_last()) == entries_to_map(s).remove(s[i].0),
{
    let k = s[i].0;
    let n = s.len() - 1;
    let t = s.update(i, s.last()).drop_last();
    assert forall|a: int| 0 <= a < t.len() implies (#[trigger] t[a]) == (if a == i {
        s[n]
    } else {
        s[a]
    }) by {}
    assert forall|a: int, b: int| 0 <= a < t.len() && 0 <= b < t.len() && a != b implies t[a].0
        != t[b].0 by {
        let sa = if a == i { n } else { a };
        let sb = if b == i { n } else { b };
        assert(t[a] == s[sa]);
        assert(t[b] == s[sb]);
    }
    assert forall|q: EntityIdRaw| has_key(t, q) <==> (has_key(s, q) && q != k) by {
        if has_key(t, q) {
            let j = key_index(t, q);
            let sj = if j == i { n } else { j };
            assert(t[j] == s[sj]);
            assert(s[sj].0 == q);
        }
        if has_key(s, q) && q != k {
            let j = key_index(s, q);
            if j == n {
                assert(t[i].0 == q);
            } else {
                assert(t[j].0 == q);
            }
        }
    }
    assert forall|q: EntityIdRaw| has_key(t, q) implies #[trigger] entries_to_map(t)[q]
        == entries_to_map(s).remove(k)[q] by {
        let j = key_index(t, q);
        lemma_entries_at(t, j);
        let sj = if j == i { n } else { j };
        assert(t[j] == s[sj]);
        lemma_entries_at(s, sj);
    }
    assert(entries_to_map(t) =~= entries_to_map(s).remove(k));
}

/// A map from entity ids to values, kept as an unordered list of entries.
///
/// Lookup walks the list; removal moves the last entry into the freed slot, so
/// the order of the entries is not the order in which they were inserted.
pub struct VecMap<V> {
    elements: Vec<(EntityIdRaw, V)>,
}

impl<V> View for VecMap<V> {
    type V = Map<EntityIdRaw, V>;

    closed spec fn view(&self) -> Map<EntityIdRaw, V> {
        entries_to_map(self.elements@)
    }
}

impl<V> VecMap<V> {
    /// No key is stored twice.
    pub closed spec fn wf(&self) -> bool {
        distinct_keys(self.elements@)
    }

    /// The entries in the order in which they are stored.
    pub closed spec fn entries(&self) -> Seq<(EntityIdRaw, V)> {
        self.elements@
    }

    pub fn new() -> (m: Self)
        ensures
            m.wf(),
            m@ == Map::<EntityIdRaw, V>::empty(),
            m.entries().len() == 0,
    {
        let m = VecMap { elements: Vec::new() };
        assert(m@ =~= Map::<EntityIdRaw, V>::empty());
        m
    }

    fn position(&self, key: EntityIdRaw) -> (r: Option<usize>)
        ensures
            match r {
                Some(i) => i < self.elements@.len() && self.elements@[i as int].0 == key,
                None => !has_key(self.elements@, key),
            },
    {
        let mut i: usize = 0;
        while i < self.elements.len()
            invariant
                i <= self.elements@.len(),
                forall|j: int| 0 <= j < i ==> self.elements@[j].0 != key,
            decreases self.elements@.len() - i,
        {
            if self.elements[i].0 == key {
                return Some(i);
            }
            i += 1;
        }
        None
    }

    pub fn get(&self, key: &EntityIdRaw) -> (r: Option<&V>)
        requires
            self.wf(),
        ensures
            match r {
                Some(v) => self@.contains_key(*key) && *v == self@[*key],
                None => !self@.contains_key(*key),
            },
    {
        match self.position(*key) {
            Some(i) => {
                proof {
                    lemma_entries_at(self.elements@, i as int);
                }
                Some(&self.elements[i].1)
            },
            None => None,
        }
    }

    pub fn contains_key(&self, key: &EntityIdRaw) -> (b: bool)
        requires
            self.wf(),
        ensures
            b == self@.contains_key(*key),
    {
        self.position(*key).is_some()
    }

    /// Removes the entry of `key` and returns its value. The last entry
    /// moves into the slot that becomes free.
    pub fn remove(&mut self, key: &EntityIdRaw) -> (r: Option<V>)
        requires
            old(self).wf(),
        ensures
            final(self).wf(),
            final(self)@ == old(self)@.remove(*key),
            match r {
                Some(v) => {
                    &&& old(self)@.contains_key(*key)
                    &&& v == old(self)@[*key]
                    &&& exists|i: int|
                        0 <= i < old(self).entries().len() && (#[trigger] old(self).entries()[i]).0
                            == *key && final(self).entries() == old(self).entries().update(
                            i,
                            old(self).entries().last(),
                        ).drop_last()
                },
                None => !old(self)@.contains_key(*key) && final(self).entries() == old(
                    self,
                ).entries(),
            },
    {
        match self.position(*key) {
            Some(i) => {
                proof {
                    lemma_entries_at(self.elements@, i as int);
                    lemma_entries_swap_remove(self.elements@, i as int);
                }
                let entry = self.elements.swap_remove(i);
                assert(old(self).entries()[i as int].0 == *key);
                Some(entry.1)
            },
            None => {
                assert(self@ =~= self@.remove(*key));
                None
            },
        }
    }

    /// Stores `value` under `key` and returns the value stored there before.
    /// A new key gets a new entry at the end of the list.
    pub fn insert(&mut self, key: EntityIdRaw, value: V) -> (r: Option<V>)
        requires
            old(self).wf(),
        ensures
            final(self).wf(),
            final(self)@ == old(self)@.insert(key, value),
            match r {
                Some(v) => {
                    &&& old(self)@.contains_key(key)
                    &&& v == old(self)@[key]
                    &&& exists|i: int|
                        0 <= i < old(self).entries().len() && (#[trigger] old(self).entries()[i]).0
                            == key && final(self).entries() == old(self).entries().update(
                            i,
                            (key, value),
                        )
                },
                None => !old(self)@.contains_key(key) && final(self).entries() == old(
                    self,
                ).entries().push((key, value)),
            },
    {
        match self.position(key) {
            Some(i) => {
                proof {
                    lemma_entries_at(self.elements@, i as int);
                    lemma_entries_update(self.elements@, i as int, value);
                }
                let ghost given = value;
                let mut value = value;
                core::mem::swap(&mut self.elements[i].1, &mut value);
                assert(old(self).entries()[i as int].0 == key);
                assert(self.entries() =~= old(self).entries().update(i as int, (key, given)));
                Some(value)
            },
            None => {
                proof {
                    lemma_entries_push(self.elements@, key, value);
                }
                self.elements.push((key, value));
                None
            },
        }
    }

    /// What the stored entries say of the view: each is a key with its
    /// value, every key of the view is stored, and none is stored twice.
    pub proof fn lemma_entries(&self)
        requires
            self.wf(),
        ensures
            forall|i: int|
                0 <= i < self.entries().len() ==> self@.contains_key(
                    (#[trigger] self.entries()[i]).0,
                ) && self@[self.entries()[i].0] == self.entries()[i].1,
            forall|k: EntityIdRaw|
                self@.contains_key(k) ==> exists|i: int|
                    0 <= i < self.entries().len() && (#[trigger] self.entries()[i]).0 == k,
            forall|i: int, j: int|
                0 <= i < self.entries().len() && 0 <= j < self.entries().len() && i != j
                    ==> self.entries()[i].0 != self.entries()[j].0,
            self@.dom().finite(),
            self@.dom().len() == self.entries().len(),
    {
        assert forall|i: int| 0 <= i < self.entries().len() implies self@.contains_key(
            (#[trigger] self.entries()[i]).0,
        ) && self@[self.entries()[i].0] == self.entries()[i].1 by {
            lemma_entries_at(self.elements@, i);
        }
        assert forall|k: EntityIdRaw| self@.contains_key(k) implies exists|i: int|
            0 <= i < self.entries().len() && (#[trigger] self.entries()[i]).0 == k by {
            let i = key_index(self.elements@, k);
            assert(self.entries()[i].0 == k);
        }
        lemma_entries_len(self.elements@);
    }

    /// An iterator over the entries in the order in which they are stored.
    pub fn iter(&self) -> (it: VecMapIter<'_, V>)
        ensures
            it.wf(),
            it.remaining() == self.entries(),
    {
        let it = VecMapIter { elements: &self.elements, pos: 0 };
        assert(it.remaining() =~= self.entries());
        it
    }

    /// A mutable borrow of the value in storage slot `i`. Walking the slots
    /// from the first to the last and changing the values on the way is how
    /// the values of the map are changed in place; the keys cannot be changed.
    pub fn value_mut(&mut self, i: usize) -> (v: &mut V)
        requires
            old(self).wf(),
            i < old(self).entries().len(),
        ensures
            *v == old(self).entries()[i as int].1,
            final(self).wf(),
            final(self).entries() == old(self).entries().update(
                i as int,
                (old(self).entries()[i as int].0, *final(v)),
            ),
            final(self)@ == old(self)@.insert(old(self).entries()[i as int].0, *final(v)),
    {
        proof {
            let s = self.elements@;
            assert forall|value: V|
                distinct_keys(#[trigger] s.update(i as int, (s[i as int].0, value)))
                    && entries_to_map(s.update(i as int, (s[i as int].0, value)))
                    == entries_to_map(s).insert(s[i as int].0, value) by {
                lemma_entries_update(s, i as int, value);
            }
        }
        &mut self.elements[i].1
    }

    /// An iterator over the keys in the order in which they are stored.
    pub fn keys(&self) -> (it: VecMapKeys<'_, V>)
        ensures
            it.wf(),
            it.remaining() == self.entries().map_values(|e: (EntityIdRaw, V)| e.0),
    {
        VecMapKeys(self.iter())
    }

    /// The entry in the first storage slot, if there is one.
    pub fn first(&self) -> (r: Option<(&EntityIdRaw, &V)>)
        requires
            self.wf(),
        ensures
            match r {
                Some((k, v)) => {
                    &&& self.entries().len() > 0
                    &&& *k == self.entries()[0].0
                    &&& *v == self.entries()[0].1
                    &&& self@.contains_key(*k)
                    &&& self@[*k] == *v
                },
                None => self.entries().len() == 0 && self@ == Map::<EntityIdRaw, V>::empty(),
            },
    {
        if self.elements.len() == 0 {
            assert(self@ =~= Map::<EntityIdRaw, V>::empty());
            None
        } else {
            proof {
                lemma_entries_at(self.elements@, 0);
            }
            Some((&self.elements[0].0, &self.elements[0].1))
        }
    }

    pub fn first_key(&self) -> (r: Option<&EntityIdRaw>)
        requires
            self.wf(),
        ensures
            match r {
                Some(k) => {
                    &&& self.entries().len() > 0
                    &&& *k == self.entries()[0].0
                    &&& self@.contains_key(*k)
                },
                None => self.entries().len() == 0 && self@ == Map::<EntityIdRaw, V>::empty(),
            },
    {
        if self.elements.len() == 0 {
            assert(self@ =~= Map::<EntityIdRaw, V>::empty());
            None
        } else {
            proof {
                lemma_entries_at(self.elements@, 0);
            }
            Some(&self.elements[0].0)
        }
    }

    pub fn is_empty(&self) -> (b: bool)
        requires
            self.wf(),
        ensures
            b == (self@ == Map::<EntityIdRaw, V>::empty()),
    {
        proof {
            if self.elements@.len() > 0 {
                lemma_entries_at(self.elements@, 0);
            } else {
                assert(self@ =~= Map::<EntityIdRaw, V>::empty());
            }
        }
        self.elements.is_empty()
    }

    pub fn len(&self) -> (n: usize)
        requires
            self.wf(),
        ensures
            self@.dom().finite(),
            n == self@.dom().len(),
            n == self.entries().len(),
    {
        proof {
            lemma_entries_len(self.elements@);
        }
        self.elements.len()
    }
}

/// Walks the entries of a [`VecMap`] in the order in which they are stored.
pub struct VecMapIter<'a, V> {
    elements: &'a Vec<(EntityIdRaw, V)>,
    pos: usize,
}

impl<'a, V> VecMapIter<'a, V> {
    /// The invariant that every operation keeps.
    pub closed spec fn wf(&self) -> bool {
        self.pos <= self.elements@.len()
    }

    /// The entries still to come.
    pub closed spec fn remaining(&self) -> Seq<(EntityIdRaw, V)> {
        self.elements@.subrange(self.pos as int, self.elements@.len() as int)
    }

    /// Yields the next entry, if one is left.
    pub fn next(&mut self) -> (r: Option<(&'a EntityIdRaw, &'a V)>)
        requires
            old(self).wf(),
        ensures
            final(self).wf(),
            match r {
                Some((k, v)) => {
                    &&& old(self).remaining().len() > 0
                    &&& (*k, *v) == old(self).remaining()[0]
                    &&& final(self).remaining() == old(self).remaining().drop_first()
                },
                None => old(self).remaining().len() == 0 && final(self).remaining() == old(
                    self,
                ).remaining(),
            },
    {
        if self.pos < self.elements.len() {
            let entry = &self.elements[self.pos];
            self.pos = self.pos + 1;
            assert(self.remaining() =~= old(self).remaining().drop_first());
            Some((&entry.0, &entry.1))
        } else {
            None
        }
    }
}

/// Walks the keys of a [`VecMap`] in the order in which they are stored.
pub struct VecMapKeys<'a, V>(VecMapIter<'a, V>);

impl<'a, V> VecMapKeys<'a, V> {
    /// The invariant that every operation keeps.
    pub closed spec fn wf(&self) -> bool {
        self.0.wf()
    }

    /// The keys still to come.
    pub closed spec fn remaining(&self) -> Seq<EntityIdRaw> {
        self.0.remaining().map_values(|e: (EntityIdRaw, V)| e.0)
    }

    /// Yields the next key, if one is left.
    pub fn next(&mut self) -> (r: Option<&'a EntityIdRaw>)
        requires
            old(self).wf(),
        ensures
            final(self).wf(),
            match r {
                Some(k) => {
                    &&& old(self).remaining().len() > 0
                    &&& *k == old(self).remaining()[0]
                    &&& final(self).remaining() == old(self).remaining().drop_first()
                },
                None => old(self).remaining().len() == 0 && final(self).remaining() == old(
                    self,
                ).remaining(),
            },
    {
        match self.0.next() {
            Some((k, _)) => {
                assert(self.remaining() =~= old(self).remaining().drop_first());
                Some(k)
            },
            None => None,
        }
    }
}

/// A list of entries with distinct keys stands for a map with as many keys.
proof fn lemma_entries_len<V>(s: Seq<(EntityIdRaw, V)>)
    requires
        distinct_keys(s),
    ensures
        entries_to_map(s).dom().finite(),
        entries_to_map(s).dom().len() == s.len(),
    decreases s.len(),
{
    if s.len() == 0 {
        assert(entries_to_map(s).dom() =~= Set::<EntityIdRaw>::empty());
    } else {
        let t = s.drop_last();
        assert forall|i: int, j: int| 0 <= i < t.len() && 0 <= j < t.len() && i != j implies t[i].0
            != t[j].0 by {
            assert(t[i] == s[i]);
            assert(t[j] == s[j]);
        }
        lemma_entries_len(t);
        if has_key(t, s.last().0) {
            let i = key_index(t, s.last().0);
            assert(t[i] == s[i]);
            assert(false);
        }
        lemma_entries_push(t, s.last().0, s.last().1);
        assert(t.push((s.last().0, s.last().1)) =~= s);
        assert(entries_to_map(s).dom() =~= entries_to_map(t).dom().insert(s.last().0));
    }
}

/// Removing the entry at `i` by moving the last one into its place removes
/// exactly that element from the set the list stands for.
proof fn lemma_members_swap_remove(s: Seq<EntityIdRaw>, i: int)
    requires
        s.no_duplicates(),
        0 <= i < s.len(),
    ensures
        s.update(i, s.last()).drop_last().no_duplicates(),
        s.update(i, s.last()).drop_last().to_set() == s.to_set().remove(s[i]),
{
    let n = s.len() - 1;
    let t = s.update(i, s.last()).drop_last();
    assert forall|a: int| 0 <= a < t.len() implies (#[trigger] t[a]) == (if a == i {
        s[n]
    } else {
        s[a]
    }) by {}
    assert forall|a: int, b: int| 0 <= a < t.len() && 0 <= b < t.len() && a != b implies t[a]
        != t[b] by {
        let sa = if a == i { n } else { a };
        let sb = if b == i { n } else { b };
        assert(t[a] == s[sa]);
        assert(t[b] == s[sb]);
    }
    assert forall|x: EntityIdRaw| t.contains(x) <==> (s.contains(x) && x != s[i]) by {
        if t.contains(x) {
            let j = choose|j: int| 0 <= j < t.len() && t[j] == x;
            let sj = if j == i { n } else { j };
            assert(t[j] == s[sj]);
        }
        if s.contains(x) && x != s[i] {
            let j = choose|j: int| 0 <= j < s.len() && s[j] == x;
            if j == n {
                assert(t[i] == x);
            } else {
                assert(t[j] == x);
            }
        }
    }
    assert(t.to_set() =~= s.to_set().remove(s[i]));
}

/// Appending an element that the list lacks adds it to the set the list stands for.
proof fn lemma_members_push(s: Seq<EntityIdRaw>, x: EntityIdRaw)
    requires
        s.no_duplicates(),
        !s.contains(x),
    ensures
        s.push(x).no_duplicates(),
        s.push(x).to_set() == s.to_set().insert(x),
{
    let t = s.push(x);
    assert forall|a: int, b: int| 0 <= a < t.len() && 0 <= b < t.len() && a != b implies t[a]
        != t[b] by {
        if a < s.len() {
            assert(s[a] == t[a]);
        }
        if b < s.len() {
            assert(s[b] == t[b]);
        }
    }
    assert forall|y: EntityIdRaw| t.contains(y) <==> (s.contains(y) || y == x) by {
        if t.contains(y) {
            let j = choose|j: int| 0 <= j < t.len() && t[j] == y;
            if j < s.len() {
                assert(s[j] == y);
            }
        }
        if s.contains(y) {
            let j = choose|j: int| 0 <= j < s.len() && s[j] == y;
            assert(t[j] == y);
        }
        if y == x {
            assert(t[s.len() as int] == y);
        }
    }
    assert(t.to_set() =~= s.to_set().insert(x));
}

/// A set of entity ids, kept as an unordered list without repetitions.
pub struct VecSet {
    elements: Vec<EntityIdRaw>,
}

impl View for VecSet {
    type V = Set<EntityIdRaw>;

    closed spec fn view(&self) -> Set<EntityIdRaw> {
        self.elements@.to_set()
    }
}

impl VecSet {
    /// No element is stored twice.
    pub closed spec fn wf(&self) -> bool {
        self.elements@.no_duplicates()
    }

    /// The elements in the order in which they are stored.
    pub closed spec fn members(&self) -> Seq<EntityIdRaw> {
        self.elements@
    }

    pub fn new() -> (s: Self)
        ensures
            s.wf(),
            s@ == Set::<EntityIdRaw>::empty(),
            s.members().len() == 0,
    {
        let s = VecSet { elements: Vec::new() };
        assert(s@ =~= Set::<EntityIdRaw>::empty());
        s
    }

    fn position(&self, t: EntityIdRaw) -> (r: Option<usize>)
        ensures
            match r {
                Some(i) => i < self.elements@.len() && self.elements@[i as int] == t,
                None => !self.elements@.contains(t),
            },
    {
        let mut i: usize = 0;
        while i < self.elements.len()
            invariant
                i <= self.elements@.len(),
                forall|j: int| 0 <= j < i ==> self.elements@[j] != t,
            decreases self.elements@.len() - i,
        {
            if self.elements[i] == t {
                return Some(i);
            }
            i += 1;
        }
        None
    }

    pub fn contains(&self, t: &EntityIdRaw) -> (b: bool)
        requires
            self.wf(),
        ensures
            b == self@.contains(*t),
    {
        self.position(*t).is_some()
    }

    /// Adds `t`; the result says whether it was new.
    pub fn insert(&mut self, t: EntityIdRaw) -> (added: bool)
        requires
            old(self).wf(),
        ensures
            final(self).wf(),
            final(self)@ == old(self)@.insert(t),
            added == !old(self)@.contains(t),
            final(self).members() == (if added {
                old(self).members().push(t)
            } else {
                old(self).members()
            }),
    {
        match self.position(t) {
            Some(_) => {
                assert(self@ =~= self@.insert(t));
                false
            },
            None => {
                proof {
                    lemma_members_push(self.elements@, t);
                }
                self.elements.push(t);
                true
            },
        }
    }

    /// Removes `t`; the result says whether it was there. The last element
    /// moves into the slot that becomes free.
    pub fn remove(&mut self, t: &EntityIdRaw) -> (removed: bool)
        requires
            old(self).wf(),
        ensures
            final(self).wf(),
            final(self)@ == old(self)@.remove(*t),
            removed == old(self)@.contains(*t),
            if removed {
                exists|i: int|
                    0 <= i < old(self).members().len() && #[trigger] old(self).members()[i] == *t
                        && final(self).members() == old(self).members().update(
                        i,
                        old(self).members().last(),
                    ).drop_last()
            } else {
                final(self).members() == old(self).members()
            },
    {
        match self.position(*t) {
            Some(i) => {
                proof {
                    lemma_members_swap_remove(self.elements@, i as int);
                }
                self.elements.swap_remove(i);
                assert(old(self).members()[i as int] == *t);
                true
            },
            None => {
                assert(self@ =~= self@.remove(*t));
                false
            },
        }
    }

    /// The stored elements are those of the view, each once.
    pub proof fn lemma_members(&self)
        requires
            self.wf(),
        ensures
            self.members().no_duplicates(),
            self.members().to_set() == self@,
            self@.finite(),
            self@.len() == self.members().len(),
    {
        self.elements@.unique_seq_to_set();
    }

    /// An iterator over the elements in the order in which they are stored.
    pub fn iter(&self) -> (it: VecSetIter<'_>)
        ensures
            it.wf(),
            it.remaining() == self.members(),
    {
        let it = VecSetIter { elements: &self.elements, pos: 0 };
        assert(it.remaining() =~= self.members());
        it
    }

    /// The element in the first storage slot, if there is one.
    pub fn first(&self) -> (r: Option<&EntityIdRaw>)
        requires
            self.wf(),
        ensures
            match r {
                Some(t) => self.members().len() > 0 && *t == self.members()[0] && self@.contains(*t),
                None => self.members().len() == 0 && self@ == Set::<EntityIdRaw>::empty(),
            },
    {
        if self.elements.len() == 0 {
            assert(self@ =~= Set::<EntityIdRaw>::empty());
            None
        } else {
            assert(self.elements@.contains(self.elements@[0]));
            Some(&self.elements[0])
        }
    }

    pub fn is_empty(&self) -> (b: bool)
        requires
            self.wf(),
        ensures
            b == (self@ == Set::<EntityIdRaw>::empty()),
    {
        proof {
            if self.elements@.len() > 0 {
                assert(self.elements@.contains(self.elements@[0]));
                assert(self@.contains(self.elements@[0]));
            } else {
                assert(self@ =~= Set::<EntityIdRaw>::empty());
            }
        }
        self.elements.is_empty()
    }

    pub fn len(&self) -> (n: usize)
        requires
            self.wf(),
        ensures
            self@.finite(),
            n == self@.len(),
            n == self.members().len(),
    {
        proof {
            self.elements@.unique_seq_to_set();
        }
        self.elements.len()
    }
}

/// Walks the elements of a [`VecSet`] in the order in which they are stored.
pub struct VecSetIter<'a> {
    elements: &'a Vec<EntityIdRaw>,
    pos: usize,
}

impl<'a> VecSetIter<'a> {
    /// The invariant that every operation keeps.
    pub closed spec fn wf(&self) -> bool {
        self.pos <= self.elements@.len()
    }

    /// The elements still to come.
    pub closed spec fn remaining(&self) -> Seq<EntityIdRaw> {
        self.elements@.subrange(self.pos as int, self.elements@.len() as int)
    }

    /// Yields the next element, if one is left.
    pub fn next(&mut self) -> (r: Option<&'a EntityIdRaw>)
        requires
            old(self).wf(),
        ensures
            final(self).wf(),
            match r {
                Some(k) => {
                    &&& old(self).remaining().len() > 0
                    &&& *k == old(self).remaining()[0]
                    &&& final(self).remaining() == old(self).remaining().drop_first()
                },
                None => old(self).remaining().len() == 0 && final(self).remaining() == old(
                    self,
                ).remaining(),
            },
    {
        if self.pos < self.elements.len() {
            let k = &self.elements[self.pos];
            self.pos = self.pos + 1;
            assert(self.remaining() =~= old(self).remaining().drop_first());
            Some(k)
        } else {
            None
        }
    }
}

} // verus!
