use vstd::prelude::*;
use crate::component::{ComponentType, ComponentValue};
use crate::coord::Coord;
use crate::direction::{neighbour, Direction};
use crate::entity_store::EntityStore;
use crate::entity_store_raw::StoreView;
use crate::id::{EntityIdRaw, EntityIdRuntimeChecked};
use crate::storage::{ComponentMap, ComponentSet};

verus! {

/// Round trip: after a component was attached to an entity, detaching the
/// component of that kind hands back exactly the value attached, and the
/// entity then holds no component of that kind.
pub proof fn lemma_round_trip(v: StoreView, id: EntityIdRaw, value: ComponentValue)
    ensures
        v.insert(id, value).component(id, value.spec_typ()) == Some(value),
        v.insert(id, value).remove(id, value.spec_typ()).component(id, value.spec_typ()) is None,
        v.component(id, value.spec_typ()) is None ==> v.insert(id, value).remove(
            id,
            value.spec_typ(),
        ) == v,
{
    v.lemma_restore(id, value);
    let w = v.insert(id, value).remove(id, value.spec_typ());
    if v.component(id, value.spec_typ()) is None {
        assert(w.coord =~= v.coord);
        assert(w.opacity =~= v.opacity);
        assert(w.player =~= v.player);
        assert(w.solid =~= v.solid);
    }
}

/// Generational safety: a reference made before its raw id was last freed is
/// invalid, whether or not the raw id is in use again. The generation of a raw
/// id goes up with every free and never down, so a reference made before a
/// free holds a count below the current one.
pub proof fn lemma_stale_reference_invalid(store: &EntityStore, reference: EntityIdRuntimeChecked)
    requires
        reference.spec_free_count() < store.generation(reference.spec_raw()),
    ensures
        !store.is_valid(reference),
{
}

/// Generational safety across a free: where `after` comes from `before` by
/// freeing the entity of `freed`, every reference that was valid before and
/// has that raw id is invalid after, and stays invalid in every later store
/// `later` in which the generation of the raw id has not gone down.
pub proof fn lemma_freed_reference_invalid(
    before: &EntityStore,
    after: &EntityStore,
    later: &EntityStore,
    freed: EntityIdRuntimeChecked,
    reference: EntityIdRuntimeChecked,
)
    requires
        before.is_valid(freed),
        before.is_valid(reference),
        reference.spec_raw() == freed.spec_raw(),
        after.live_ids() == before.live_ids().remove(freed.spec_raw()),
        after.generation(freed.spec_raw()) == before.generation(freed.spec_raw()) + 1,
        later.generation(freed.spec_raw()) >= after.generation(freed.spec_raw()),
    ensures
        !after.is_valid(reference),
        !later.is_valid(reference),
{
}

/// Aggregate correctness: in every well-formed store, the cell at each
/// coordinate of the grid holds the number of solid entities positioned
/// there, the sum of the opacities of the entities positioned there, the set
/// of the players positioned there, and for each direction the number of
/// solid entities positioned one step away in that direction.
pub proof fn lemma_aggregate_correctness(store: &EntityStore, c: Coord)
    requires
        store.wf(),
        c.spec_is_valid(store.grid_size()),
    ensures
        store.cell(c).solid_count == Set::new(
            |e: EntityIdRaw|
                store@.coord.contains_key(e) && store@.coord[e] == c && store@.solid.contains(e),
        ).len(),
        store.cell(c).opacity_total == crate::aggregate::sum_values(
            Set::new(
                |e: EntityIdRaw|
                    store@.coord.contains_key(e) && store@.coord[e] == c
                        && store@.opacity.contains_key(e),
            ),
            store@.opacity,
        ),
        store.cell(c).player_set@ == Set::new(
            |e: EntityIdRaw|
                store@.coord.contains_key(e) && store@.coord[e] == c && store@.player.contains(e),
        ),
        forall|d: Direction| #[trigger]
            store.cell(c).spec_solid_neighbours(d) == (match neighbour(c, d) {
                Some(p) => Set::new(
                    |e: EntityIdRaw|
                        store@.coord.contains_key(e) && store@.coord[e] == p
                            && store@.solid.contains(e),
                ).len(),
                None => 0,
            }),
{
    store.lemma_aggregates(c);
    let v = store@;
    assert(crate::aggregate::holders_at(v.coord, c, v.solid) =~= Set::new(
        |e: EntityIdRaw| v.coord.contains_key(e) && v.coord[e] == c && v.solid.contains(e),
    ));
    assert(crate::aggregate::holders_at(v.coord, c, v.opacity.dom()) =~= Set::new(
        |e: EntityIdRaw| v.coord.contains_key(e) && v.coord[e] == c && v.opacity.contains_key(e),
    ));
    assert(crate::aggregate::holders_at(v.coord, c, v.player) =~= Set::new(
        |e: EntityIdRaw| v.coord.contains_key(e) && v.coord[e] == c && v.player.contains(e),
    ));
    assert forall|d: Direction| #[trigger]
        store.cell(c).spec_solid_neighbours(d) == (match neighbour(c, d) {
            Some(p) => Set::new(
                |e: EntityIdRaw| v.coord.contains_key(e) && v.coord[e] == p && v.solid.contains(e),
            ).len(),
            None => 0,
        }) by {
        assert(store.cell(c).spec_solid_neighbours(d) == crate::aggregate::solid_neighbours_at(
            v,
            c,
            d,
        ));
        if neighbour(c, d) is Some {
            let p = neighbour(c, d).unwrap();
            assert(crate::aggregate::holders_at(v.coord, p, v.solid) =~= Set::new(
                |e: EntityIdRaw| v.coord.contains_key(e) && v.coord[e] == p && v.solid.contains(e),
            ));
        }
    }
}

/// What inserting a value under `id` hands back from a map, and what it leaves.
pub open spec fn map_insert<T>(m: Map<EntityIdRaw, T>, id: EntityIdRaw, value: T) -> (
    Map<EntityIdRaw, T>,
    Option<T>,
) {
    (m.insert(id, value), m.get(id))
}

/// What removing `id` hands back from a map, and what it leaves.
pub open spec fn map_remove<T>(m: Map<EntityIdRaw, T>, id: EntityIdRaw) -> (
    Map<EntityIdRaw, T>,
    Option<T>,
) {
    (m.remove(id), m.get(id))
}

/// Backend equivalence for maps: two containers that hold the same entries
/// answer every lookup alike, whatever kinds of container they are, and after
/// the same insertion or removal they hold the same entries again and have
/// handed back the same value. So for one sequence of operations, what can be
/// observed does not depend on the container.
pub proof fn lemma_map_backends_agree<T>(
    a: &ComponentMap<T>,
    b: &ComponentMap<T>,
    a_next: &ComponentMap<T>,
    b_next: &ComponentMap<T>,
    a_result: Option<T>,
    b_result: Option<T>,
    id: EntityIdRaw,
    value: Option<T>,
)
    requires
        a@ == b@,
        (a_next@, a_result) == (match value {
            Some(v) => map_insert(a@, id, v),
            None => map_remove(a@, id),
        }),
        (b_next@, b_result) == (match value {
            Some(v) => map_insert(b@, id, v),
            None => map_remove(b@, id),
        }),
    ensures
        a@.get(id) == b@.get(id),
        a@.contains_key(id) == b@.contains_key(id),
        a@.dom() == b@.dom(),
        a_next@ == b_next@,
        a_result == b_result,
{
}

/// Backend equivalence for sets: as for maps.
pub proof fn lemma_set_backends_agree(
    a: &ComponentSet,
    b: &ComponentSet,
    a_next: &ComponentSet,
    b_next: &ComponentSet,
    a_result: bool,
    b_result: bool,
    id: EntityIdRaw,
    insert: bool,
)
    requires
        a@ == b@,
        a_result == a@.contains(id),
        b_result == b@.contains(id),
        a_next@ == (if insert {
            a@.insert(id)
        } else {
            a@.remove(id)
        }),
        b_next@ == (if insert {
            b@.insert(id)
        } else {
            b@.remove(id)
        }),
    ensures
        a@.contains(id) == b@.contains(id),
        a_next@ == b_next@,
        a_result == b_result,
{
}

/// Backend equivalence for stores: two stores that hold the same components
/// hold the same again after the same component was attached to the same
/// entity, or detached from it, whatever containers they use.
pub proof fn lemma_store_backends_agree(
    a: StoreView,
    b: StoreView,
    id: EntityIdRaw,
    value: ComponentValue,
)
    requires
        a == b,
    ensures
        a.insert(id, value) == b.insert(id, value),
        a.remove(id, value.spec_typ()) == b.remove(id, value.spec_typ()),
        a.component(id, value.spec_typ()) == b.component(id, value.spec_typ()),
{
}

/// Idempotence: detaching a component that the entity does not hold changes
/// nothing and finds nothing.
pub proof fn lemma_remove_absent(v: StoreView, id: EntityIdRaw, typ: ComponentType)
    requires
        v.component(id, typ) is None,
    ensures
        v.remove(id, typ) == v,
        v.remove(id, typ).component(id, typ) is None,
{
    let w = v.remove(id, typ);
    assert(w.coord =~= v.coord);
    assert(w.opacity =~= v.opacity);
    assert(w.player =~= v.player);
    assert(w.solid =~= v.solid);
}

/// Detaching twice is detaching once.
pub proof fn lemma_remove_twice(v: StoreView, id: EntityIdRaw, typ: ComponentType)
    ensures
        v.remove(id, typ).remove(id, typ) == v.remove(id, typ),
        v.remove(id, typ).component(id, typ) is None,
{
    lemma_remove_absent(v.remove(id, typ), id, typ);
}

proof fn lemma_insert_all_one(v: StoreView, id: EntityIdRaw, head: Seq<ComponentValue>, value: ComponentValue)
    ensures
        v.insert_all(id, head + seq![value]) == v.insert_all(id, head).insert(id, value),
        v.insert_all(id, head + Seq::<ComponentValue>::empty()) == v.insert_all(id, head),
{
    assert((head + seq![value]).drop_last() =~= head);
    assert(head + Seq::<ComponentValue>::empty() =~= head);
}

/// Transfer: after the components drained from the entity `from` of the
/// store `a` were inserted one by one into the entity `to` of the store `b`,
/// `to` holds every component that `from` held, with its value, and `from`
/// holds none. Of a kind that `from` did not hold, `to` holds what it held.
pub proof fn lemma_transfer(
    a: StoreView,
    b: StoreView,
    from: EntityIdRaw,
    to: EntityIdRaw,
    typ: ComponentType,
)
    ensures
        b.insert_all(to, a.components_of(from)).component(to, typ) == (match a.component(
            from,
            typ,
        ) {
            Some(value) => Some(value),
            None => b.component(to, typ),
        }),
        a.remove_all(from).component(from, typ) is None,
{
    let s0 = a.component_seq(from, ComponentType::Coord);
    let s1 = s0 + a.component_seq(from, ComponentType::Opacity);
    let s2 = s1 + a.component_seq(from, ComponentType::Player);
    let s3 = s2 + a.component_seq(from, ComponentType::Solid);
    assert(s3 == a.components_of(from));
    let e = Seq::<ComponentValue>::empty();
    assert(b.insert_all(to, e) == b);
    assert(e + s0 =~= s0);
    match a.component(from, ComponentType::Coord) {
        Some(value) => lemma_insert_all_one(b, to, e, value),
        None => lemma_insert_all_one(b, to, e, ComponentValue::Solid),
    }
    match a.component(from, ComponentType::Opacity) {
        Some(value) => lemma_insert_all_one(b, to, s0, value),
        None => lemma_insert_all_one(b, to, s0, ComponentValue::Solid),
    }
    match a.component(from, ComponentType::Player) {
        Some(value) => lemma_insert_all_one(b, to, s1, value),
        None => lemma_insert_all_one(b, to, s1, ComponentValue::Solid),
    }
    match a.component(from, ComponentType::Solid) {
        Some(value) => lemma_insert_all_one(b, to, s2, value),
        None => lemma_insert_all_one(b, to, s2, ComponentValue::Solid),
    }
}

/// Transfer into an entity that holds nothing reproduces the components of
/// the source exactly.
pub proof fn lemma_transfer_to_fresh(
    a: StoreView,
    b: StoreView,
    from: EntityIdRaw,
    to: EntityIdRaw,
)
    requires
        b.kinds_of(to) == Set::<ComponentType>::empty(),
    ensures
        forall|typ: ComponentType|
            b.insert_all(to, a.components_of(from)).component(to, typ) == a.component(from, typ),
        b.insert_all(to, a.components_of(from)).kinds_of(to) == a.kinds_of(from),
{
    assert forall|typ: ComponentType|
        b.insert_all(to, a.components_of(from)).component(to, typ) == a.component(
            from,
            typ,
        ) by {
        lemma_transfer(a, b, from, to, typ);
        assert(!b.kinds_of(to).contains(typ));
    }
    assert(b.insert_all(to, a.components_of(from)).kinds_of(to) =~= a.kinds_of(from));
}

} // verus!
