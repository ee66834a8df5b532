use vstd::prelude::*;
use crate::coord::Coord;
use crate::direction::{neighbour, Direction};
use crate::entity_store_raw::StoreView;
use crate::id::EntityIdRaw;

verus! {

/// The entities positioned at `c`.
pub open spec fn occupants(coord: Map<EntityIdRaw, Coord>, c: Coord) -> Set<EntityIdRaw> {
    Set::new(|e: EntityIdRaw| coord.contains_key(e) && coord[e] == c)
}

/// The entities positioned at `c` that are among `holders`.
pub open spec fn holders_at(
    coord: Map<EntityIdRaw, Coord>,
    c: Coord,
    holders: Set<EntityIdRaw>,
) -> Set<EntityIdRaw> {
    occupants(coord, c).intersect(holders)
}

/// The sum of the values that the entities of `s` have in `values`.
pub open spec fn sum_values(s: Set<EntityIdRaw>, values: Map<EntityIdRaw, u8>) -> nat {
    s.fold(0nat, |acc: nat, e: EntityIdRaw| acc + values[e] as nat)
}

/// The players positioned at `c`.
pub open spec fn player_set_at(v: StoreView, c: Coord) -> Set<EntityIdRaw> {
    holders_at(v.coord, c, v.player)
}

/// The number of solid entities positioned at `c`.
pub open spec fn solid_count_at(v: StoreView, c: Coord) -> nat {
    holders_at(v.coord, c, v.solid).len()
}

/// The sum of the opacities of the entities positioned at `c`.
pub open spec fn opacity_total_at(v: StoreView, c: Coord) -> nat {
    sum_values(holders_at(v.coord, c, v.opacity.dom()), v.opacity)
}

/// The number of solid entities positioned one step from `c` in the
/// direction `d`.
pub open spec fn solid_neighbours_at(v: StoreView, c: Coord, d: Direction) -> nat {
    match neighbour(c, d) {
        Some(p) => solid_count_at(v, p),
        None => 0,
    }
}

pub(crate) proof fn lemma_sum_commutative(values: Map<EntityIdRaw, u8>)
    ensures
        vstd::set::fold::is_fun_commutative(|acc: nat, e: EntityIdRaw| acc + values[e] as nat),
{
}

pub(crate) proof fn lemma_sum_empty(values: Map<EntityIdRaw, u8>)
    ensures
        sum_values(Set::empty(), values) == 0,
{
    vstd::set::fold::lemma_fold_empty(0nat, |acc: nat, e: EntityIdRaw| acc + values[e] as nat);
}

pub(crate) proof fn lemma_sum_insert(
    s: Set<EntityIdRaw>,
    values: Map<EntityIdRaw, u8>,
    e: EntityIdRaw,
)
    requires
        s.finite(),
        !s.contains(e),
    ensures
        sum_values(s.insert(e), values) == sum_values(s, values) + values[e],
{
    lemma_sum_commutative(values);
    vstd::set::fold::lemma_fold_insert(s, 0nat, |acc: nat, x: EntityIdRaw| acc + values[x] as nat, e);
}

pub(crate) proof fn lemma_sum_remove(
    s: Set<EntityIdRaw>,
    values: Map<EntityIdRaw, u8>,
    e: EntityIdRaw,
)
    requires
        s.finite(),
        s.contains(e),
    ensures
        sum_values(s, values) == sum_values(s.remove(e), values) + values[e],
{
    lemma_sum_insert(s.remove(e), values, e);
    assert(s.remove(e).insert(e) =~= s);
}

/// The sum over a set depends only on the values of its members.
pub(crate) proof fn lemma_sum_agree(
    s: Set<EntityIdRaw>,
    m1: Map<EntityIdRaw, u8>,
    m2: Map<EntityIdRaw, u8>,
)
    requires
        s.finite(),
        forall|e: EntityIdRaw| s.contains(e) ==> m1[e] == m2[e],
    ensures
        sum_values(s, m1) == sum_values(s, m2),
    decreases s.len(),
{
    if s.len() == 0 {
        s.lemma_len0_is_empty();
        lemma_sum_empty(m1);
        lemma_sum_empty(m2);
    } else {
        let x = s.choose();
        lemma_sum_remove(s, m1, x);
        lemma_sum_remove(s, m2, x);
        lemma_sum_agree(s.remove(x), m1, m2);
    }
}

pub(crate) proof fn lemma_sum_bound(s: Set<EntityIdRaw>, values: Map<EntityIdRaw, u8>)
    requires
        s.finite(),
    ensures
        sum_values(s, values) <= 255 * s.len(),
    decreases s.len(),
{
    if s.len() == 0 {
        s.lemma_len0_is_empty();
        lemma_sum_empty(values);
    } else {
        let x = s.choose();
        lemma_sum_remove(s, values, x);
        lemma_sum_bound(s.remove(x), values);
    }
}

spec fn ids_below(n: nat) -> Set<EntityIdRaw> {
    Set::new(|e: EntityIdRaw| (e as nat) < n)
}

proof fn lemma_ids_below(n: nat)
    requires
        n <= 0x1_0000_0000,
    ensures
        ids_below(n).finite(),
        ids_below(n).len() == n,
    decreases n,
{
    if n == 0 {
        assert(ids_below(0) =~= Set::<EntityIdRaw>::empty());
    } else {
        lemma_ids_below((n - 1) as nat);
        assert(ids_below(n) =~= ids_below((n - 1) as nat).insert((n - 1) as EntityIdRaw));
    }
}

/// There are no more entities than raw ids.
pub(crate) proof fn lemma_ids_bounded(s: Set<EntityIdRaw>)
    requires
        s.finite(),
    ensures
        s.len() <= 0x1_0000_0000,
{
    lemma_ids_below(0x1_0000_0000);
    assert(s.subset_of(ids_below(0x1_0000_0000)));
    vstd::set_lib::lemma_len_subset(s, ids_below(0x1_0000_0000));
}

/// The entities at a cell are among the entities that have a position.
pub(crate) proof fn lemma_holders_finite(
    coord: Map<EntityIdRaw, Coord>,
    c: Coord,
    holders: Set<EntityIdRaw>,
)
    requires
        coord.dom().finite(),
    ensures
        holders_at(coord, c, holders).finite(),
        holders_at(coord, c, holders).len() <= 0x1_0000_0000,
{
    assert(holders_at(coord, c, holders).subset_of(coord.dom()));
    vstd::set_lib::lemma_len_subset(holders_at(coord, c, holders), coord.dom());
    lemma_ids_bounded(holders_at(coord, c, holders));
}

/// How the entities at a cell change when one entity gets or loses its position.
pub(crate) proof fn lemma_holders_position(
    coord: Map<EntityIdRaw, Coord>,
    id: EntityIdRaw,
    at: Coord,
    c: Coord,
    holders: Set<EntityIdRaw>,
)
    ensures
        holders_at(coord.remove(id), c, holders) == holders_at(
            coord.insert(id, at),
            c,
            holders,
        ).remove(id),
        holders_at(coord.insert(id, at), c, holders).contains(id) == (c == at && holders.contains(
            id,
        )),
        holders_at(coord.insert(id, at), c, holders) == (if c == at && holders.contains(id) {
            holders_at(coord.remove(id), c, holders).insert(id)
        } else {
            holders_at(coord.remove(id), c, holders)
        }),
        !holders_at(coord.remove(id), c, holders).contains(id),
{
    assert(holders_at(coord.remove(id), c, holders) =~= holders_at(
        coord.insert(id, at),
        c,
        holders,
    ).remove(id));
    if c == at && holders.contains(id) {
        assert(holders_at(coord.insert(id, at), c, holders) =~= holders_at(
            coord.remove(id),
            c,
            holders,
        ).insert(id));
    } else {
        assert(holders_at(coord.insert(id, at), c, holders) =~= holders_at(
            coord.remove(id),
            c,
            holders,
        ));
    }
}

/// How the entities at a cell change when one entity joins or leaves the holders.
pub(crate) proof fn lemma_holders_member(
    coord: Map<EntityIdRaw, Coord>,
    c: Coord,
    holders: Set<EntityIdRaw>,
    id: EntityIdRaw,
)
    ensures
        holders_at(coord, c, holders.remove(id)) == holders_at(coord, c, holders).remove(id),
        holders_at(coord, c, holders.insert(id)) == (if coord.contains_key(id) && coord[id] == c {
            holders_at(coord, c, holders).insert(id)
        } else {
            holders_at(coord, c, holders)
        }),
        holders_at(coord, c, holders).contains(id) == (coord.contains_key(id) && coord[id] == c
            && holders.contains(id)),
{
    assert(holders_at(coord, c, holders.remove(id)) =~= holders_at(coord, c, holders).remove(id));
    if coord.contains_key(id) && coord[id] == c {
        assert(holders_at(coord, c, holders.insert(id)) =~= holders_at(coord, c, holders).insert(
            id,
        ));
    } else {
        assert(holders_at(coord, c, holders.insert(id)) =~= holders_at(coord, c, holders));
    }
}

/// The number of holders at a cell after one entity left or joined.
pub(crate) proof fn lemma_count_step(s: Set<EntityIdRaw>, id: EntityIdRaw)
    requires
        s.finite(),
    ensures
        s.contains(id) ==> s.len() >= 1 && s.remove(id).len() == s.len() - 1,
        !s.contains(id) ==> s.remove(id) == s && s.insert(id).len() == s.len() + 1,
        s.contains(id) ==> s.insert(id) == s,
{
    if s.contains(id) {
        assert(s.insert(id) =~= s);
    } else {
        assert(s.remove(id) =~= s);
    }
}

/// The sum over the holders at a cell after the value of one entity was set
/// or dropped: the sum over the others, and the new value where the entity is
/// at the cell.
pub(crate) proof fn lemma_sum_step(
    s: Set<EntityIdRaw>,
    values: Map<EntityIdRaw, u8>,
    id: EntityIdRaw,
    value: u8,
)
    requires
        s.finite(),
    ensures
        sum_values(s.remove(id), values.insert(id, value)) == sum_values(s.remove(id), values),
        sum_values(s.remove(id), values.remove(id)) == sum_values(s.remove(id), values),
        sum_values(s.insert(id), values.insert(id, value)) == sum_values(s.remove(id), values)
            + value,
        s.contains(id) ==> sum_values(s, values) == sum_values(s.remove(id), values) + values[id],
        !s.contains(id) ==> sum_values(s, values) == sum_values(s.remove(id), values),
{
    lemma_sum_agree(s.remove(id), values.insert(id, value), values);
    lemma_sum_agree(s.remove(id), values.remove(id), values);
    lemma_sum_insert(s.remove(id), values.insert(id, value), id);
    assert(s.remove(id).insert(id) =~= s.insert(id));
    if s.contains(id) {
        lemma_sum_remove(s, values, id);
    } else {
        assert(s.remove(id) =~= s);
    }
}

} // verus!
