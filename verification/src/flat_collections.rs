use vstd::prelude::*;
use crate::bits::{
    bit_is_set, lemma_bit_clear, lemma_bit_or, lemma_bit_single, lemma_clear_decreases,
    lemma_lowest_bit,
};
use crate::id::EntityIdRaw;

verus! {

/// A map from entity ids to values, kept as an array indexed by the id.
///
/// The array grows to the largest id seen and never shrinks. An id beyond
/// its end is absent.
pub struct FlatMap<T> {
    elements: Vec<Option<T>>,
}

impl<T> View for FlatMap<T> {
    type V = Map<EntityIdRaw, T>;

    closed spec fn view(&self) -> Map<EntityIdRaw, T> {
        Map::new(
            |k: EntityIdRaw| (k as int) < self.elements@.len() && self.elements@[k as int] is Some,
            |k: EntityIdRaw| self.elements@[k as int].unwrap(),
        )
    }
}

/// Largest number of slots a [`FlatMap`] ever holds: one for every id.
pub const MAX_SLOTS: u64 = 0x1_0000_0000;

/// The occupied slots from position `from` on, each with its position, in
/// ascending order.
pub open spec fn flat_entries<T>(slots: Seq<Option<T>>, from: int) -> Seq<(EntityIdRaw, T)>
    decreases slots.len() - from,
{
    if from < 0 || from >= slots.len() {
        Seq::empty()
    } else if slots[from] is Some {
        seq![(from as EntityIdRaw, slots[from].unwrap())] + flat_entries(slots, from + 1)
    } else {
        flat_entries(slots, from + 1)
    }
}

proof fn lemma_flat_entries<T>(slots: Seq<Option<T>>, from: int)
    requires
        0 <= from,
        slots.len() <= MAX_SLOTS,
    ensures
        forall|i: int|
            0 <= i < flat_entries(slots, from).len() ==> {
                let e = #[trigger] flat_entries(slots, from)[i];
                from <= e.0 < slots.len() && slots[e.0 as int] == Some(e.1)
            },
        forall|i: int, j: int|
            0 <= i < j < flat_entries(slots, from).len() ==> flat_entries(slots, from)[i].0
                < flat_entries(slots, from)[j].0,
        forall|k: int|
            from <= k < slots.len() && slots[k] is Some ==> exists|i: int|
                0 <= i < flat_entries(slots, from).len() && (#[trigger] flat_entries(
                    slots,
                    from,
                )[i]).0 == k,
    decreases slots.len() - from,
{
    if from < slots.len() {
        lemma_flat_entries(slots, from + 1);
        let rest = flat_entries(slots, from + 1);
        let all = flat_entries(slots, from);
        if slots[from] is Some {
            assert forall|i: int| 0 < i < all.len() implies all[i] == rest[i - 1] by {}
            assert(all[0].0 == from);
            assert forall|k: int| from <= k < slots.len() && slots[k] is Some implies exists|
                i: int,
            |
                0 <= i < all.len() && (#[trigger] all[i]).0 == k by {
                if k > from {
                    let j = choose|j: int| 0 <= j < rest.len() && (#[trigger] rest[j]).0 == k;
                    assert(all[j + 1].0 == k);
                } else {
                    assert(all[0].0 == k);
                }
            }
            assert forall|i: int, j: int| 0 <= i < j < all.len() implies all[i].0 < all[j].0 by {
                if i > 0 {
                    assert(rest[i - 1].0 < rest[j - 1].0);
                } else {
                    assert(all[j] == rest[j - 1]);
                }
            }
        } else {
            assert forall|k: int| from <= k < slots.len() && slots[k] is Some implies exists|
                i: int,
            |
                0 <= i < all.len() && (#[trigger] all[i]).0 == k by {
                let j = choose|j: int| 0 <= j < rest.len() && (#[trigger] rest[j]).0 == k;
                assert(all[j].0 == k);
            }
        }
    }
}

impl<T> FlatMap<T> {
    /// The array is no longer than the ids need.
    pub closed spec fn wf(&self) -> bool {
        self.elements@.len() <= MAX_SLOTS
    }

    /// The entries in ascending order of their ids.
    pub closed spec fn entries(&self) -> Seq<(EntityIdRaw, T)> {
        flat_entries(self.elements@, 0)
    }

    /// What the entries say of the view: each is a key with its value, every
    /// key of the view is among them, and they ascend by key.
    pub proof fn lemma_entries(&self)
        requires
            self.wf(),
        ensures
            forall|i: int|
                0 <= i < self.entries().len() ==> self@.contains_key(
                    (#[trigger] self.entries()[i]).0,
                ) && self@[self.entries()[i].0] == self.entries()[i].1,
            forall|k: EntityIdRaw|
                self@.contains_key(k) ==> exists|i: int|
                    0 <= i < self.entries().len() && (#[trigger] self.entries()[i]).0 == k,
            forall|i: int, j: int|
                0 <= i < j < self.entries().len() ==> self.entries()[i].0 < self.entries()[j].0,
    {
        lemma_flat_entries(self.elements@, 0);
        assert forall|k: EntityIdRaw| self@.contains_key(k) implies exists|i: int|
            0 <= i < self.entries().len() && (#[trigger] self.entries()[i]).0 == k by {
            let i = choose|i: int|
                0 <= i < flat_entries(self.elements@, 0).len() && (#[trigger] flat_entries(
                    self.elements@,
                    0,
                )[i]).0 == k as int;
            assert(self.entries()[i].0 == k);
        }
    }

    /// The place of `index` in the map: the value stored under it, or the
    /// gap where one can be stored.
    pub fn entry(&mut self, index: &EntityIdRaw) -> (r: FlatMapEntry<'_, T>)
        requires
            old(self).wf(),
        ensures
            match r {
                FlatMapEntry::Occupied(v) => {
                    &&& old(self)@.contains_key(*index)
                    &&& *v == old(self)@[*index]
                    &&& final(self).wf()
                    &&& final(self)@ =~= old(self)@.insert(*index, *final(v))
                },
                FlatMapEntry::Vacant { map, index: at } => {
                    &&& !old(self)@.contains_key(*index)
                    &&& at == *index
                    &&& *map == *old(self)
                    &&& *final(map) == *final(self)
                },
            },
    {
        if self.contains_key(index) {
            let value = self.get_mut(index).unwrap();
            FlatMapEntry::Occupied(value)
        } else {
            FlatMapEntry::Vacant { map: self, index: *index as usize }
        }
    }

    /// An iterator over the entries in ascending order of their ids.
    pub fn iter(&self) -> (it: FlatMapIter<'_, T>)
        requires
            self.wf(),
        ensures
            it.wf(),
            it.remaining() == self.entries(),
    {
        FlatMapIter { elements: &self.elements, pos: 0 }
    }

    /// An iterator over the keys in ascending order.
    pub fn keys(&self) -> (it: FlatMapKeys<'_, T>)
        requires
            self.wf(),
        ensures
            it.wf(),
            it.remaining() == self.entries().map_values(|e: (EntityIdRaw, T)| e.0),
    {
        FlatMapKeys(self.iter())
    }

    /// Number of slots of the array, occupied or not.
    pub closed spec fn capacity(&self) -> nat {
        self.elements@.len()
    }

    pub fn new() -> (m: Self)
        ensures
            m.wf(),
            m@ == Map::<EntityIdRaw, T>::empty(),
            m.capacity() == 0,
    {
        let m = FlatMap { elements: Vec::new() };
        assert(m@ =~= Map::<EntityIdRaw, T>::empty());
        m
    }

    pub fn remove(&mut self, index: &EntityIdRaw) -> (r: Option<T>)
        requires
            old(self).wf(),
        ensures
            final(self).wf(),
            final(self)@ == old(self)@.remove(*index),
            final(self).capacity() == old(self).capacity(),
            match r {
                Some(v) => old(self)@.contains_key(*index) && v == old(self)@[*index],
                None => !old(self)@.contains_key(*index),
            },
    {
        let i = *index as usize;
        if i >= self.elements.len() {
            assert(self@ =~= self@.remove(*index));
            return None;
        }
        let r = self.elements[i].take();
        assert(self@ =~= old(self)@.remove(*index));
        r
    }

    pub fn get(&self, index: &EntityIdRaw) -> (r: Option<&T>)
        ensures
            match r {
                Some(v) => self@.contains_key(*index) && *v == self@[*index],
                None => !self@.contains_key(*index),
            },
    {
        let i = *index as usize;
        if i < self.elements.len() {
            self.elements[i].as_ref()
        } else {
            None
        }
    }

    pub fn get_mut(&mut self, index: &EntityIdRaw) -> (r: Option<&mut T>)
        requires
            old(self).wf(),
        ensures
            final(self).wf(),
            match r {
                Some(v) => {
                    &&& old(self)@.contains_key(*index)
                    &&& *v == old(self)@[*index]
                    &&& final(self)@ =~= old(self)@.insert(*index, *final(v))
                },
                None => !old(self)@.contains_key(*index) && final(self)@ =~= old(self)@,
            },
            final(self).capacity() == old(self).capacity(),
    {
        let i = *index as usize;
        if i < self.elements.len() {
            self.elements[i].as_mut()
        } else {
            None
        }
    }

    pub fn clear(&mut self)
        ensures
            final(self).wf(),
            final(self)@ == Map::<EntityIdRaw, T>::empty(),
            final(self).capacity() == 0,
    {
        self.elements.clear();
        assert(self@ =~= Map::<EntityIdRaw, T>::empty());
    }

    pub fn contains_key(&self, index: &EntityIdRaw) -> (b: bool)
        ensures
            b == self@.contains_key(*index),
    {
        self.get(index).is_some()
    }

    fn insert_raw(&mut self, index: usize, component: T) -> (r: Option<T>)
        requires
            old(self).wf(),
            index <= EntityIdRaw::MAX,
        ensures
            final(self).wf(),
            final(self)@ == old(self)@.insert(index as EntityIdRaw, component),
            final(self).capacity() == if index < old(self).capacity() {
                old(self).capacity()
            } else {
                (index + 1) as nat
            },
            match r {
                Some(v) => old(self)@.contains_key(index as EntityIdRaw) && v == old(self)@[index as EntityIdRaw],
                None => !old(self)@.contains_key(index as EntityIdRaw),
            },
    {
        if index < self.elements.len() {
            let mut slot = Some(component);
            core::mem::swap(&mut self.elements[index], &mut slot);
            assert(self@ =~= old(self)@.insert(index as EntityIdRaw, component));
            return slot;
        }
        while self.elements.len() < index
            invariant
                old(self).elements@.len() <= self.elements@.len() <= index,
                self@ =~= old(self)@,
            decreases index - self.elements@.len(),
        {
            self.elements.push(None);
        }
        self.elements.push(Some(component));
        assert(self@ =~= old(self)@.insert(index as EntityIdRaw, component));
        None
    }

    /// Stores `component` under `index` and returns what was stored there before.
    pub fn insert(&mut self, index: EntityIdRaw, component: T) -> (r: Option<T>)
        requires
            old(self).wf(),
        ensures
            final(self).wf(),
            final(self)@ == old(self)@.insert(index, component),
            final(self).capacity() == if index < old(self).capacity() {
                old(self).capacity()
            } else {
                (index + 1) as nat
            },
            match r {
                Some(v) => old(self)@.contains_key(index) && v == old(self)@[index],
                None => !old(self)@.contains_key(index),
            },
    {
        self.insert_raw(index as usize, component)
    }
}

/// A place in a [`FlatMap`]: the value stored under an id, or the gap
/// where one can be stored.
pub enum FlatMapEntry<'a, T> {
    Occupied(&'a mut T),
    Vacant { map: &'a mut FlatMap<T>, index: usize },
}

impl<'a, T> FlatMapEntry<'a, T> {
    /// The value of the entry; a vacant entry is first filled with `default`.
    pub fn or_insert(self, default: T) -> (r: &'a mut T)
        requires
            self matches FlatMapEntry::Vacant { map, index } ==> map.wf() && index
                <= EntityIdRaw::MAX,
        ensures
            match self {
                FlatMapEntry::Occupied(v) => *r == *v && *final(v) == *final(r),
                FlatMapEntry::Vacant { map, index } => {
                    &&& *r == default
                    &&& final(map).wf()
                    &&& final(map)@ =~= map@.insert(index as EntityIdRaw, *final(r))
                },
            },
    {
        match self {
            FlatMapEntry::Occupied(v) => v,
            FlatMapEntry::Vacant { map, index } => {
                map.insert_raw(index, default);
                let id = index as EntityIdRaw;
                map.get_mut(&id).unwrap()
            },
        }
    }

    /// The value of the entry; a vacant entry is first filled with what
    /// `default` makes.
    pub fn or_insert_with<F: FnOnce() -> T>(self, default: F) -> (r: &'a mut T)
        requires
            self matches FlatMapEntry::Vacant { map, index } ==> map.wf() && index
                <= EntityIdRaw::MAX && default.requires(()),
        ensures
            match self {
                FlatMapEntry::Occupied(v) => *r == *v && *final(v) == *final(r),
                FlatMapEntry::Vacant { map, index } => {
                    &&& default.ensures((), *r)
                    &&& final(map).wf()
                    &&& final(map)@ =~= map@.insert(index as EntityIdRaw, *final(r))
                },
            },
    {
        match self {
            FlatMapEntry::Occupied(v) => v,
            FlatMapEntry::Vacant { map, index } => {
                map.insert_raw(index, default());
                let id = index as EntityIdRaw;
                map.get_mut(&id).unwrap()
            },
        }
    }
}

/// Walks the entries of a [`FlatMap`] in ascending order of their ids.
pub struct FlatMapIter<'a, T> {
    elements: &'a Vec<Option<T>>,
    pos: usize,
}

impl<'a, T> FlatMapIter<'a, T> {
    /// The invariant that every operation keeps.
    pub closed spec fn wf(&self) -> bool {
        self.pos <= self.elements@.len() <= MAX_SLOTS
    }

    /// The entries still to come.
    pub closed spec fn remaining(&self) -> Seq<(EntityIdRaw, T)> {
        flat_entries(self.elements@, self.pos as int)
    }

    /// Yields the next entry, if one is left.
    pub fn next(&mut self) -> (r: Option<(EntityIdRaw, &'a T)>)
        requires
            old(self).wf(),
        ensures
            final(self).wf(),
            match r {
                Some((k, v)) => {
                    &&& old(self).remaining().len() > 0
                    &&& (k, *v) == old(self).remaining()[0]
                    &&& final(self).remaining() == old(self).remaining().drop_first()
                },
                None => old(self).remaining().len() == 0 && final(self).remaining() == old(
                    self,
                ).remaining(),
            },
    {
        while self.pos < self.elements.len()
            invariant
                self.wf(),
                self.elements == old(self).elements,
                self.remaining() == old(self).remaining(),
            decreases self.elements@.len() - self.pos,
        {
            let index = self.pos;
            self.pos = self.pos + 1;
            if let Some(value) = self.elements[index].as_ref() {
                assert(self.remaining() =~= old(self).remaining().drop_first());
                return Some((index as EntityIdRaw, value));
            }
        }
        None
    }
}

/// Walks the keys of a [`FlatMap`] in ascending order.
pub struct FlatMapKeys<'a, T>(FlatMapIter<'a, T>);

impl<'a, T> FlatMapKeys<'a, T> {
    /// The invariant that every operation keeps.
    pub closed spec fn wf(&self) -> bool {
        self.0.wf()
    }

    /// The keys still to come.
    pub closed spec fn remaining(&self) -> Seq<EntityIdRaw> {
        self.0.remaining().map_values(|e: (EntityIdRaw, T)| e.0)
    }

    /// Yields the next key, if one is left.
    pub fn next(&mut self) -> (r: Option<EntityIdRaw>)
        requires
            old(self).wf(),
        ensures
            final(self).wf(),
            match r {
                Some(k) => {
                    &&& old(self).remaining().len() > 0
                    &&& k == old(self).remaining()[0]
                    &&& final(self).remaining() == old(self).remaining().drop_first()
                },
                None => old(self).remaining().len() == 0 && final(self).remaining() == old(
                    self,
                ).remaining(),
            },
    {
        match self.0.next() {
            Some((k, _)) => {
                assert(self.remaining() =~= old(self).remaining().drop_first());
                Some(k)
            },
            None => None,
        }
    }
}

/// Number of ids that one word of a [`FlatSet`] covers.
pub const WORD_BITS: usize = 64;

/// Largest number of words a [`FlatSet`] ever holds: enough for every id.
pub const MAX_WORDS: usize = 0x400_0000;

/// The ids that the set bits of `word` stand for, in ascending order, where
/// bit 0 stands for the id `base`.
pub open spec fn word_ids(word: u64, base: int) -> Seq<EntityIdRaw>
    decreases word,
    via word_ids_decreases
{
    if word == 0 {
        Seq::empty()
    } else {
        seq![(base + word.trailing_zeros()) as EntityIdRaw] + word_ids(
            word & !(1u64 << (word.trailing_zeros() as u64)),
            base,
        )
    }
}

#[via_fn]
proof fn word_ids_decreases(word: u64, base: int) {
    if word != 0 {
        lemma_lowest_bit(word);
        lemma_clear_decreases(word, word.trailing_zeros() as u64);
    }
}

/// The ids that the words from position `from` on stand for, in ascending order.
pub open spec fn bitmap_ids(words: Seq<u64>, from: int) -> Seq<EntityIdRaw>
    decreases words.len() - from,
{
    if from < 0 || from >= words.len() {
        Seq::empty()
    } else {
        word_ids(words[from], 64 * from) + bitmap_ids(words, from + 1)
    }
}

/// Whether the bit of the id `k` is set in the bitmap `words`.
pub open spec fn bitmap_holds(words: Seq<u64>, k: EntityIdRaw) -> bool {
    k / 64 < words.len() && bit_is_set(words[k as int / 64], (k % 64) as u64)
}

proof fn lemma_word_ids(word: u64, base: int)
    requires
        0 <= base,
        base + 64 <= 0x1_0000_0000,
    ensures
        forall|i: int|
            0 <= i < word_ids(word, base).len() ==> base <= (#[trigger] word_ids(word, base)[i])
                < base + 64 && bit_is_set(word, (word_ids(word, base)[i] - base) as u64),
        forall|i: int, j: int|
            0 <= i < j < word_ids(word, base).len() ==> word_ids(word, base)[i] < word_ids(
                word,
                base,
            )[j],
        forall|p: u64|
            p < 64 && bit_is_set(word, p) ==> exists|i: int|
                0 <= i < word_ids(word, base).len() && #[trigger] word_ids(word, base)[i] == base
                    + p,
    decreases word,
{
    if word == 0 {
        assert forall|p: u64| p < 64 implies !bit_is_set(word, p) by {
            lemma_bit_single(0, p);
        }
    } else {
        lemma_lowest_bit(word);
        let t = word.trailing_zeros() as u64;
        let rest_word = word & !(1u64 << t);
        lemma_clear_decreases(word, t);
        lemma_word_ids(rest_word, base);
        let rest = word_ids(rest_word, base);
        let all = word_ids(word, base);
        assert(all[0] == base + t);
        assert forall|i: int| 0 < i < all.len() implies all[i] == rest[i - 1] by {}
        assert forall|i: int| 0 <= i < all.len() implies base <= (#[trigger] all[i]) < base + 64
            && bit_is_set(word, (all[i] - base) as u64) by {
            if i > 0 {
                let q = (rest[i - 1] - base) as u64;
                lemma_bit_clear(word, t, q);
            }
        }
        assert forall|i: int, j: int| 0 <= i < j < all.len() implies all[i] < all[j] by {
            let q = (rest[j - 1] - base) as u64;
            lemma_bit_clear(word, t, q);
            if i > 0 {
                assert(rest[i - 1] < rest[j - 1]);
            }
        }
        assert forall|p: u64| p < 64 && bit_is_set(word, p) implies exists|i: int|
            0 <= i < all.len() && #[trigger] all[i] == base + p by {
            lemma_bit_clear(word, t, p);
            if p == t {
                assert(all[0] == base + p);
            } else {
                let j = choose|j: int| 0 <= j < rest.len() && #[trigger] rest[j] == base + p;
                assert(all[j + 1] == base + p);
            }
        }
    }
}

proof fn lemma_bitmap_ids(words: Seq<u64>, from: int)
    requires
        0 <= from,
        words.len() <= MAX_WORDS,
    ensures
        forall|i: int|
            0 <= i < bitmap_ids(words, from).len() ==> {
                let k = #[trigger] bitmap_ids(words, from)[i];
                from <= k / 64 && bitmap_holds(words, k)
            },
        forall|i: int, j: int|
            0 <= i < j < bitmap_ids(words, from).len() ==> bitmap_ids(words, from)[i]
                < bitmap_ids(words, from)[j],
        forall|k: EntityIdRaw|
            from <= k / 64 && #[trigger] bitmap_holds(words, k) ==> exists|i: int|
                0 <= i < bitmap_ids(words, from).len() && #[trigger] bitmap_ids(words, from)[i]
                    == k,
    decreases words.len() - from,
{
    if from < words.len() {
        lemma_bitmap_ids(words, from + 1);
        lemma_word_ids(words[from], 64 * from);
        let head = word_ids(words[from], 64 * from);
        let rest = bitmap_ids(words, from + 1);
        let all = bitmap_ids(words, from);
        assert forall|i: int| 0 <= i < all.len() implies all[i] == (if i < head.len() {
            head[i]
        } else {
            rest[i - head.len()]
        }) by {}
        assert forall|i: int| 0 <= i < all.len() implies {
            let k = #[trigger] all[i];
            from <= k / 64 && bitmap_holds(words, k)
        } by {
            if i < head.len() {
                let k = head[i];
                assert(k / 64 == from && k % 64 == k - 64 * from);
            } else {
                let k = rest[i - head.len()];
            }
        }
        assert forall|i: int, j: int| 0 <= i < j < all.len() implies all[i] < all[j] by {
            if j < head.len() {
                assert(head[i] < head[j]);
            } else if i < head.len() {
                let a = head[i];
                let b = rest[j - head.len()];
                assert(a < 64 * from + 64);
                assert(b / 64 >= from + 1);
            } else {
                assert(rest[i - head.len()] < rest[j - head.len()]);
            }
        }
        assert forall|k: EntityIdRaw| from <= k / 64 && #[trigger] bitmap_holds(words, k) implies exists|
            i: int,
        | 0 <= i < all.len() && #[trigger] all[i] == k by {
            if k / 64 == from {
                let p = (k % 64) as u64;
                let i = choose|i: int| 0 <= i < head.len() && #[trigger] head[i] == 64 * from + p;
                assert(all[i] == k);
            } else {
                let i = choose|i: int| 0 <= i < rest.len() && #[trigger] rest[i] == k;
                assert(all[i + head.len()] == k);
            }
        }
    }
}

/// A set of entity ids, kept as a bitmap: one bit for each id up to the largest seen.
pub struct FlatSet {
    elements: Vec<u64>,
}

impl View for FlatSet {
    type V = Set<EntityIdRaw>;

    closed spec fn view(&self) -> Set<EntityIdRaw> {
        Set::new(|k: EntityIdRaw| bitmap_holds(self.elements@, k))
    }
}

impl FlatSet {
    /// The bitmap is no longer than the ids need.
    pub closed spec fn wf(&self) -> bool {
        self.elements@.len() <= MAX_WORDS
    }

    pub fn new() -> (s: Self)
        ensures
            s.wf(),
            s@ == Set::<EntityIdRaw>::empty(),
    {
        let s = FlatSet { elements: Vec::new() };
        assert(s@ =~= Set::<EntityIdRaw>::empty());
        s
    }

    /// The word that holds the bit of `id`, and the bit within that word.
    fn index_mask(id: usize) -> (r: (usize, u64))
        ensures
            r.0 == id / 64,
            r.1 == 1u64 << ((id % 64) as u64),
    {
        let index = id / 64;
        let offset = (id % 64) as u32;
        let mask = 1u64 << offset;
        (index, mask)
    }

    /// Adds `index`; the result says whether it was there before.
    pub fn insert(&mut self, index: EntityIdRaw) -> (present: bool)
        requires
            old(self).wf(),
        ensures
            final(self).wf(),
            final(self)@ == old(self)@.insert(index),
            present == old(self)@.contains(index),
    {
        let (word, mask) = Self::index_mask(index as usize);
        let ghost off = (index % 64) as u64;
        if word < self.elements.len() {
            let bits = self.elements[word];
            let current = bits & mask != 0;
            self.elements[word] = bits | mask;
            proof {
                assert forall|k: EntityIdRaw| bitmap_holds(self.elements@, k) == (k == index
                    || bitmap_holds(old(self).elements@, k)) by {
                    if k / 64 == word {
                        lemma_bit_or(bits, off, (k % 64) as u64);
                    }
                }
                assert(self@ =~= old(self)@.insert(index));
            }
            return current;
        }
        while self.elements.len() < word
            invariant
                old(self).elements@.len() <= self.elements@.len() <= word,
                forall|i: int| 0 <= i < old(self).elements@.len() ==> self.elements@[i] == old(
                    self,
                ).elements@[i],
                forall|i: int| old(self).elements@.len() <= i < self.elements@.len()
                    ==> self.elements@[i] == 0,
            decreases word - self.elements@.len(),
        {
            self.elements.push(0);
        }
        self.elements.push(mask);
        proof {
            assert forall|k: EntityIdRaw| bitmap_holds(self.elements@, k) == (k == index
                || bitmap_holds(old(self).elements@, k)) by {
                lemma_bit_single(off, (k % 64) as u64);
            }
            assert(self@ =~= old(self)@.insert(index));
        }
        false
    }

    /// Removes `index`; the result says whether it was there.
    pub fn remove(&mut self, index: &EntityIdRaw) -> (present: bool)
        requires
            old(self).wf(),
        ensures
            final(self).wf(),
            final(self)@ == old(self)@.remove(*index),
            present == old(self)@.contains(*index),
    {
        let (word, mask) = Self::index_mask(*index as usize);
        let ghost off = (*index % 64) as u64;
        if word < self.elements.len() {
            let bits = self.elements[word];
            let current = bits & mask != 0;
            self.elements[word] = bits & !mask;
            proof {
                assert forall|k: EntityIdRaw| bitmap_holds(self.elements@, k) == (k != *index
                    && bitmap_holds(old(self).elements@, k)) by {
                    if k / 64 == word {
                        lemma_bit_clear(bits, off, (k % 64) as u64);
                    }
                }
                assert(self@ =~= old(self)@.remove(*index));
            }
            current
        } else {
            assert(self@ =~= old(self)@.remove(*index));
            false
        }
    }

    pub fn contains(&self, index: &EntityIdRaw) -> (b: bool)
        requires
            self.wf(),
        ensures
            b == self@.contains(*index),
    {
        let (word, mask) = Self::index_mask(*index as usize);
        if word < self.elements.len() {
            self.elements[word] & mask != 0
        } else {
            false
        }
    }

    /// The elements in ascending order.
    pub closed spec fn members(&self) -> Seq<EntityIdRaw> {
        bitmap_ids(self.elements@, 0)
    }

    /// The members are the elements of the view, in strictly ascending order.
    pub proof fn lemma_members(&self)
        requires
            self.wf(),
        ensures
            forall|k: EntityIdRaw| self.members().contains(k) <==> self@.contains(k),
            forall|i: int, j: int|
                0 <= i < j < self.members().len() ==> self.members()[i] < self.members()[j],
    {
        lemma_bitmap_ids(self.elements@, 0);
        let ids = self.members();
        assert forall|k: EntityIdRaw| ids.contains(k) <==> self@.contains(k) by {
            if ids.contains(k) {
                let i = choose|i: int| 0 <= i < ids.len() && ids[i] == k;
                assert(bitmap_holds(self.elements@, ids[i]));
            }
            if self@.contains(k) {
                assert(bitmap_holds(self.elements@, k));
                let i = choose|i: int| 0 <= i < ids.len() && #[trigger] ids[i] == k;
            }
        }
    }

    /// An iterator over the elements in ascending order.
    pub fn iter(&self) -> (it: FlatSetIter<'_>)
        requires
            self.wf(),
        ensures
            it.wf(),
            it.remaining() == self.members(),
    {
        if self.elements.len() > 0 {
            let it = FlatSetIter {
                elements: &self.elements,
                word: 1,
                current: self.elements[0],
                base: 0,
            };
            assert(it.remaining() =~= self.members());
            it
        } else {
            let it = FlatSetIter { elements: &self.elements, word: 0, current: 0, base: 0 };
            assert(it.remaining() =~= self.members());
            it
        }
    }

    pub fn clear(&mut self)
        ensures
            final(self).wf(),
            final(self)@ == Set::<EntityIdRaw>::empty(),
    {
        self.elements.clear();
        assert(self@ =~= Set::<EntityIdRaw>::empty());
    }

    pub fn is_empty(&self) -> (b: bool)
        requires
            self.wf(),
        ensures
            b == (self@ == Set::<EntityIdRaw>::empty()),
    {
        let mut i: usize = 0;
        while i < self.elements.len()
            invariant
                self.wf(),
                i <= self.elements@.len(),
                forall|j: int| 0 <= j < i ==> self.elements@[j] == 0,
            decreases self.elements@.len() - i,
        {
            let bits = self.elements[i];
            if bits != 0 {
                proof {
                    lemma_lowest_bit(bits);
                    let k = (i * 64 + bits.trailing_zeros()) as EntityIdRaw;
                    assert(k / 64 == i && k % 64 == bits.trailing_zeros());
                    assert(bitmap_holds(self.elements@, k));
                    assert(self@.contains(k));
                }
                return false;
            }
            i += 1;
        }
        proof {
            assert forall|k: EntityIdRaw| !bitmap_holds(self.elements@, k) by {
                lemma_bit_single(0, (k % 64) as u64);
            }
            assert(self@ =~= Set::<EntityIdRaw>::empty());
        }
        true
    }
}

/// Walks the elements of a [`FlatSet`] in ascending order.
pub struct FlatSetIter<'a> {
    elements: &'a Vec<u64>,
    /// Position of the next word to take up.
    word: usize,
    /// What is left of the word taken up last.
    current: u64,
    /// The id that bit 0 of that word stands for.
    base: usize,
}

impl<'a> FlatSetIter<'a> {
    /// The invariant that every operation keeps.
    pub closed spec fn wf(&self) -> bool {
        &&& self.word <= self.elements@.len() <= MAX_WORDS
        &&& self.base + 64 <= 0x1_0000_0000
        &&& self.current != 0 ==> self.word > 0 && self.base == 64 * (self.word - 1)
    }

    /// The elements still to come.
    pub closed spec fn remaining(&self) -> Seq<EntityIdRaw> {
        word_ids(self.current, self.base as int) + bitmap_ids(self.elements@, self.word as int)
    }

    /// Yields the smallest element still to come, if one is left.
    pub fn next(&mut self) -> (r: Option<EntityIdRaw>)
        requires
            old(self).wf(),
        ensures
            final(self).wf(),
            match r {
                Some(k) => {
                    &&& old(self).remaining().len() > 0
                    &&& k == old(self).remaining()[0]
                    &&& final(self).remaining() == old(self).remaining().drop_first()
                },
                None => old(self).remaining().len() == 0 && final(self).remaining() == old(
                    self,
                ).remaining(),
            },
    {
        while self.current == 0
            invariant
                self.wf(),
                self.elements == old(self).elements,
                self.remaining() == old(self).remaining(),
            decreases self.elements@.len() - self.word,
        {
            if self.word < self.elements.len() {
                let ghost before = self.remaining();
                self.current = self.elements[self.word];
                self.base = 64 * self.word;
                self.word = self.word + 1;
                assert(self.remaining() =~= before);
            } else {
                return None;
            }
        }
        proof {
            lemma_lowest_bit(self.current);
            lemma_word_ids(self.current, self.base as int);
        }
        let trailing = self.current.trailing_zeros() as usize;
        self.current = self.current & !(1u64 << (trailing as u64));
        assert(self.remaining() =~= old(self).remaining().drop_first());
        Some((self.base + trailing) as EntityIdRaw)
    }
}

} // verus!
