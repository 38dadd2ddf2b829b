//! The `entity_table` items that the tables are built on, with the contracts relied on.
use vstd::prelude::*;
use entity_table::{ComponentTable, Entity};

verus! {

/// Handle of an entity, allocated and recycled outside this library.
#[verifier::external_type_specification]
#[verifier::external_body]
pub struct ExEntity(Entity);

/// Sparse table from entity to a value, from the `entity_table` crate.
#[verifier::external_type_specification]
#[verifier::external_body]
#[verifier::reject_recursive_types(T)]
pub struct ExComponentTable<T>(ComponentTable<T>);

/// The slot that an entity handle occupies in any table: handles that share a slot
/// are different generations of one recycled entity.
pub uninterp spec fn entity_index(e: Entity) -> u32;

/// What a table of slot numbers holds, per entity.
pub uninterp spec fn slot_contents(t: ComponentTable<usize>) -> Map<Entity, usize>;

/// The order in which a table of slot numbers lists its entities; it changes only when
/// the table does.
pub uninterp spec fn slot_order(t: ComponentTable<usize>) -> Seq<Entity>;

/// No two entities stored in a table share a slot.
pub open spec fn one_per_index<V>(m: Map<Entity, V>) -> bool {
    forall|a: Entity, b: Entity|
        #![trigger m.contains_key(a), m.contains_key(b)]
        m.contains_key(a) && m.contains_key(b) && entity_index(a) == entity_index(b) ==> a == b
}

/// A table's contents are finite and hold at most one handle of each entity slot.
pub open spec fn view_ok<V>(m: Map<Entity, V>) -> bool {
    m.dom().finite() && one_per_index(m)
}

/// `m` without the entry of any handle that shares a slot with `e`.
pub open spec fn without_slot<V>(m: Map<Entity, V>, e: Entity) -> Map<Entity, V> {
    m.restrict(m.dom().filter(|k: Entity| entity_index(k) != entity_index(e)))
}

/// The entry stored in the slot of `e`, whichever handle of that slot stored it.
pub open spec fn entry_in_slot(m: Map<Entity, usize>, e: Entity) -> Option<usize> {
    if exists|k: Entity| #[trigger] m.contains_key(k) && entity_index(k) == entity_index(e) {
        let k = choose|k: Entity| #[trigger] m.contains_key(k) && entity_index(k) == entity_index(e);
        Some(m[k])
    } else {
        None
    }
}

/// Relies on `ComponentTable::default`: a new table holds nothing.
#[verifier::external_body]
pub(crate) fn slots_new() -> (r: ComponentTable<usize>)
    ensures
        slot_contents(r).is_empty(),
        slot_contents(r).dom().finite(),
{
    ComponentTable::default()
}

/// Relies on `ComponentTable::clear`: every entry is dropped.
#[verifier::external_body]
pub(crate) fn slots_clear(t: &mut ComponentTable<usize>)
    ensures
        slot_contents(*final(t)).is_empty(),
        slot_contents(*final(t)).dom().finite(),
{
    t.clear()
}

/// Relies on `ComponentTable::len`: the number of stored entries.
#[verifier::external_body]
pub(crate) fn slots_len(t: &ComponentTable<usize>) -> (r: usize)
    ensures
        r as nat == slot_contents(*t).len(),
{
    t.len()
}

/// Relies on `ComponentTable::get`: the entry stored for exactly this handle.
#[verifier::external_body]
pub(crate) fn slots_get(t: &ComponentTable<usize>, e: Entity) -> (r: Option<usize>)
    ensures
        slot_contents(*t).contains_key(e) ==> r == Some(slot_contents(*t)[e]),
        !slot_contents(*t).contains_key(e) ==> r is None,
    no_unwind
{
    t.get(e).copied()
}

/// Relies on `ComponentTable::insert`: the entry for `e` is set; an entry of an older
/// handle of the same slot is overwritten; the previous entry of `e` is returned.
#[verifier::external_body]
pub(crate) fn slots_insert(t: &mut ComponentTable<usize>, e: Entity, v: usize) -> (r: Option<usize>)
    ensures
        slot_contents(*final(t)) == without_slot(slot_contents(*old(t)), e).insert(e, v),
        slot_contents(*old(t)).dom().finite() ==> slot_contents(*final(t)).dom().finite(),
        forall|k: Entity| #[trigger] slot_contents(*final(t)).contains_key(k) && k != e
            ==> entity_index(k) != entity_index(e),
        slot_contents(*old(t)).contains_key(e) ==> r == Some(slot_contents(*old(t))[e]),
        !slot_contents(*old(t)).contains_key(e) ==> r is None,
{
    t.insert(e, v)
}

/// Relies on `ComponentTable::remove`: the entry in the slot of `e` is taken out and
/// returned, whichever handle of that slot stored it.
#[verifier::external_body]
pub(crate) fn slots_remove(t: &mut ComponentTable<usize>, e: Entity) -> (r: Option<usize>)
    ensures
        slot_contents(*final(t)) == without_slot(slot_contents(*old(t)), e),
        slot_contents(*old(t)).dom().finite() ==> slot_contents(*final(t)).dom().finite(),
        r == entry_in_slot(slot_contents(*old(t)), e),
{
    t.remove(e)
}

/// Relies on `ComponentTable::iter`: every stored entry, each once, in the order of the
/// table's entry vector, which only `insert`, `remove` and `clear` change.
#[verifier::external_body]
pub(crate) fn slots_entries(t: &ComponentTable<usize>) -> (r: Vec<(Entity, usize)>)
    ensures
        forall|i: int| 0 <= i < r@.len() ==> slot_contents(*t).contains_key(#[trigger] r@[i].0)
            && slot_contents(*t)[r@[i].0] == r@[i].1,
        forall|e: Entity| #[trigger] slot_contents(*t).contains_key(e) ==> exists|i: int|
            0 <= i < r@.len() && r@[i].0 == e,
        forall|i: int, j: int| 0 <= i < j < r@.len() ==> r@[i].0 != r@[j].0,
        r@.len() == slot_contents(*t).len(),
        r@.map_values(|p: (Entity, usize)| p.0) == slot_order(*t),
{
    t.iter().map(|(e, s)| (e, *s)).collect()
}

} // verus!
