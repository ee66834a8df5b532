use vstd::prelude::*;
use entity_store_helper::IdAllocator;
use crate::id::EntityIdRaw;

verus! {

/// The pool of raw entity ids: an `entity_store_helper::IdAllocator`.
///
/// It hands out the ids that were returned to it, the latest first, and
/// counts upwards from zero once none is left.
#[verifier::external_body]
pub struct RawIdPool {
    inner: IdAllocator<EntityIdRaw>,
}

/// The smallest id that the pool has never handed out.
pub uninterp spec fn pool_next(pool: RawIdPool) -> EntityIdRaw;

/// The ids that were returned to the pool and not handed out since, in the
/// order in which they were returned.
pub uninterp spec fn pool_free_list(pool: RawIdPool) -> Seq<EntityIdRaw>;

/// `IdAllocator::new`: a pool that has handed out nothing.
#[verifier::external_body]
pub(crate) fn pool_new() -> (pool: RawIdPool)
    ensures
        pool_next(pool) == 0,
        pool_free_list(pool) == Seq::<EntityIdRaw>::empty(),
{
    RawIdPool { inner: IdAllocator::new() }
}

/// `IdAllocator::allocate`: the id returned last, where one is left, and else
/// the smallest id never handed out. The outside function adds one to that
/// id without a check, so the largest id is never handed out fresh.
#[verifier::external_body]
pub(crate) fn pool_allocate(pool: &mut RawIdPool) -> (id: EntityIdRaw)
    requires
        pool_free_list(*old(pool)).len() > 0 || pool_next(*old(pool)) < EntityIdRaw::MAX,
    ensures
        pool_free_list(*old(pool)).len() > 0 ==> {
            &&& id == pool_free_list(*old(pool)).last()
            &&& pool_free_list(*final(pool)) == pool_free_list(*old(pool)).drop_last()
            &&& pool_next(*final(pool)) == pool_next(*old(pool))
        },
        pool_free_list(*old(pool)).len() == 0 ==> {
            &&& id == pool_next(*old(pool))
            &&& pool_free_list(*final(pool)) == pool_free_list(*old(pool))
            &&& pool_next(*final(pool)) == pool_next(*old(pool)) + 1
        },
{
    pool.inner.allocate()
}

/// `IdAllocator::peek`: the smallest id never handed out.
#[verifier::external_body]
pub(crate) fn pool_peek(pool: &RawIdPool) -> (id: EntityIdRaw)
    ensures
        id == pool_next(*pool),
{
    pool.inner.peek()
}

/// `IdAllocator::free`: returns `id` to the pool.
#[verifier::external_body]
pub(crate) fn pool_free(pool: &mut RawIdPool, id: EntityIdRaw)
    ensures
        pool_free_list(*final(pool)) == pool_free_list(*old(pool)).push(id),
        pool_next(*final(pool)) == pool_next(*old(pool)),
{
    pool.inner.free(id)
}

} // verus!
