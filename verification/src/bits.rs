use vstd::prelude::*;

verus! {

/// Whether bit `offset` of `word` is set.
pub open spec fn bit_is_set(word: u64, offset: u64) -> bool {
    word & (1u64 << offset) != 0
}

pub(crate) proof fn lemma_bit_or(w: u64, o: u64, p: u64)
    requires
        o < 64,
        p < 64,
    ensures
        bit_is_set(w | (1u64 << o), p) == (p == o || bit_is_set(w, p)),
{
    assert((w | (1u64 << o)) & (1u64 << p) != 0 <==> (p == o || w & (1u64 << p) != 0))
        by (bit_vector)
        requires
            o < 64,
            p < 64,
    ;
}

pub(crate) proof fn lemma_bit_clear(w: u64, o: u64, p: u64)
    requires
        o < 64,
        p < 64,
    ensures
        bit_is_set(w & !(1u64 << o), p) == (p != o && bit_is_set(w, p)),
{
    assert((w & !(1u64 << o)) & (1u64 << p) != 0 <==> (p != o && w & (1u64 << p) != 0))
        by (bit_vector)
        requires
            o < 64,
            p < 64,
    ;
}

pub(crate) proof fn lemma_bit_single(o: u64, p: u64)
    requires
        o < 64,
        p < 64,
    ensures
        bit_is_set(1u64 << o, p) == (p == o),
        !bit_is_set(0u64, p),
{
    assert((1u64 << o) & (1u64 << p) != 0 <==> p == o) by (bit_vector)
        requires
            o < 64,
            p < 64,
    ;
    assert(0u64 & (1u64 << p) == 0) by (bit_vector);
}

pub(crate) proof fn lemma_lowest_bit(w: u64)
    requires
        w != 0,
    ensures
        w.trailing_zeros() < 64,
        bit_is_set(w, w.trailing_zeros() as u64),
        forall|p: u64| p < w.trailing_zeros() ==> !bit_is_set(w, p),
{
    vstd::std_specs::bits::axiom_u64_trailing_zeros(w);
    let t = w.trailing_zeros() as u64;
    assert((w >> t) & 1u64 == 1u64);
    assert((w >> t) & 1u64 == 1u64 ==> w & (1u64 << t) != 0) by (bit_vector)
        requires
            t < 64,
    ;
    assert forall|p: u64| p < w.trailing_zeros() implies !bit_is_set(w, p) by {
        assert((w >> p) & 1u64 == 0u64);
        assert((w >> p) & 1u64 == 0u64 ==> w & (1u64 << p) == 0) by (bit_vector)
            requires
                p < 64,
        ;
    }
}

pub(crate) proof fn lemma_clear_decreases(w: u64, o: u64)
    requires
        o < 64,
        bit_is_set(w, o),
    ensures
        w & !(1u64 << o) < w,
{
    assert(w & (1u64 << o) != 0 ==> w & !(1u64 << o) < w) by (bit_vector)
        requires
            o < 64,
    ;
}

} // verus!
