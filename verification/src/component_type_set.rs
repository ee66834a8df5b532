use vstd::prelude::*;
use crate::bits::{bit_is_set, lemma_bit_or, lemma_bit_clear, lemma_bit_single, lemma_lowest_bit};
use crate::component::{ComponentType, NUM_COMPONENT_TYPES};

verus! {

/// Whether `bits` has no bit set beyond those that stand for a component kind.
pub open spec fn only_kind_bits(bits: u64) -> bool {
    forall|p: u64| NUM_COMPONENT_TYPES <= p < 64 ==> !bit_is_set(bits, p)
}

/// The set of component kinds whose bit is set in `bits`.
pub open spec fn kinds_of_bits(bits: u64) -> Set<ComponentType> {
    Set::new(|t: ComponentType| bit_is_set(bits, t.spec_index() as u64))
}

/// The component kinds attached to one entity: one bit for each kind.
#[derive(Debug, Clone, Copy)]
pub struct ComponentTypeSet {
    bitmap: u64,
}

impl View for ComponentTypeSet {
    type V = Set<ComponentType>;

    closed spec fn view(&self) -> Set<ComponentType> {
        kinds_of_bits(self.bitmap)
    }
}

impl ComponentTypeSet {
    /// Only bits that stand for a component kind are set.
    pub closed spec fn wf(&self) -> bool {
        only_kind_bits(self.bitmap)
    }

    pub fn new() -> (s: Self)
        ensures
            s.wf(),
            s@ == Set::<ComponentType>::empty(),
    {
        let s = ComponentTypeSet { bitmap: 0 };
        proof {
            assert forall|p: u64| p < 64 implies !bit_is_set(0u64, p) by {
                lemma_bit_single(0, p);
            }
            assert(s@ =~= Set::<ComponentType>::empty());
        }
        s
    }

    pub fn is_empty(&self) -> (b: bool)
        requires
            self.wf(),
        ensures
            b == (self@ == Set::<ComponentType>::empty()),
    {
        proof {
            if self.bitmap != 0 {
                lemma_lowest_bit(self.bitmap);
                let t = Self::kind_at(self.bitmap.trailing_zeros() as u64);
                assert(self@.contains(t));
            } else {
                assert forall|p: u64| p < 64 implies !bit_is_set(0u64, p) by {
                    lemma_bit_single(0, p);
                }
                assert(self@ =~= Set::<ComponentType>::empty());
            }
        }
        self.bitmap == 0
    }

    spec fn kind_at(p: u64) -> ComponentType {
        if p == 0 {
            ComponentType::Coord
        } else if p == 1 {
            ComponentType::Opacity
        } else if p == 2 {
            ComponentType::Player
        } else {
            ComponentType::Solid
        }
    }

    pub fn insert(&mut self, component_type: ComponentType)
        requires
            old(self).wf(),
        ensures
            final(self).wf(),
            final(self)@ == old(self)@.insert(component_type),
    {
        let offset = component_type.index() as u64;
        let bits = self.bitmap;
        self.bitmap = bits | (1u64 << offset);
        proof {
            assert forall|p: u64| p < 64 implies #[trigger] bit_is_set(self.bitmap, p) == (p == offset
                || bit_is_set(bits, p)) by {
                lemma_bit_or(bits, offset, p);
            }
            assert forall|t: ComponentType| self@.contains(t) == (t == component_type || old(
                self,
            )@.contains(t)) by {
                assert(bit_is_set(self.bitmap, t.spec_index() as u64) == (t.spec_index() as u64
                    == offset || bit_is_set(bits, t.spec_index() as u64)));
            }
            assert(self@ =~= old(self)@.insert(component_type));
        }
    }

    pub fn remove(&mut self, component_type: ComponentType)
        requires
            old(self).wf(),
        ensures
            final(self).wf(),
            final(self)@ == old(self)@.remove(component_type),
    {
        let offset = component_type.index() as u64;
        let bits = self.bitmap;
        self.bitmap = bits & !(1u64 << offset);
        proof {
            assert forall|p: u64| p < 64 implies #[trigger] bit_is_set(self.bitmap, p) == (p != offset
                && bit_is_set(bits, p)) by {
                lemma_bit_clear(bits, offset, p);
            }
            assert forall|t: ComponentType| self@.contains(t) == (t != component_type && old(
                self,
            )@.contains(t)) by {
                assert(bit_is_set(self.bitmap, t.spec_index() as u64) == (t.spec_index() as u64
                    != offset && bit_is_set(bits, t.spec_index() as u64)));
            }
            assert(self@ =~= old(self)@.remove(component_type));
        }
    }

    pub fn contains(&self, component_type: ComponentType) -> (b: bool)
        ensures
            b == self@.contains(component_type),
    {
        let offset = component_type.index() as u64;
        self.bitmap & (1u64 << offset) != 0
    }

    /// An iterator over the kinds of the set, in the order of their indices.
    pub fn iter(&self) -> (it: ComponentTypeSetIter)
        requires
            self.wf(),
        ensures
            it.wf(),
            it@ == self@,
    {
        ComponentTypeSetIter { bitmap: self.bitmap }
    }
}

/// Walks the kinds of a [`ComponentTypeSet`] from the smallest index up.
pub struct ComponentTypeSetIter {
    bitmap: u64,
}

impl View for ComponentTypeSetIter {
    type V = Set<ComponentType>;

    /// The kinds still to come.
    closed spec fn view(&self) -> Set<ComponentType> {
        kinds_of_bits(self.bitmap)
    }
}

impl ComponentTypeSetIter {
    /// The invariant that every operation keeps.
    pub closed spec fn wf(&self) -> bool {
        only_kind_bits(self.bitmap)
    }

    /// An iterator that yields nothing.
    pub fn empty() -> (it: Self)
        ensures
            it.wf(),
            it@ == Set::<ComponentType>::empty(),
    {
        let it = ComponentTypeSetIter { bitmap: 0 };
        proof {
            assert forall|p: u64| p < 64 implies !bit_is_set(0u64, p) by {
                lemma_bit_single(0, p);
            }
            assert(it@ =~= Set::<ComponentType>::empty());
        }
        it
    }

    /// Yields the remaining kind with the smallest index, and drops it from
    /// what remains; `None` once nothing remains.
    pub fn next(&mut self) -> (r: Option<ComponentType>)
        requires
            old(self).wf(),
        ensures
            final(self).wf(),
            match r {
                Some(t) => {
                    &&& old(self)@.contains(t)
                    &&& forall|u: ComponentType|
                        old(self)@.contains(u) ==> t.spec_index() <= u.spec_index()
                    &&& final(self)@ == old(self)@.remove(t)
                },
                None => old(self)@ == Set::<ComponentType>::empty() && final(self)@ == old(self)@,
            },
    {
        let bits = self.bitmap;
        if bits == 0 {
            proof {
                assert forall|p: u64| p < 64 implies !bit_is_set(0u64, p) by {
                    lemma_bit_single(0, p);
                }
                assert(self@ =~= Set::<ComponentType>::empty());
            }
            return None;
        }
        proof {
            lemma_lowest_bit(bits);
        }
        let trailing = bits.trailing_zeros();
        self.bitmap = bits & !(1u64 << (trailing as u64));
        let r = ComponentType::from_u32(trailing);
        proof {
            assert forall|p: u64| p < 64 implies #[trigger] bit_is_set(self.bitmap, p) == (p != trailing
                && bit_is_set(bits, p)) by {
                lemma_bit_clear(bits, trailing as u64, p);
            }
            let t = r.unwrap();
            assert(self@ =~= old(self)@.remove(t));
        }
        r
    }
}

} // verus!
