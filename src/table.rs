use vstd::prelude::*;
use entity_table::{ComponentTable, Entity};
use crate::entity_slots::{
    entity_index, one_per_index, slot_contents, slot_order, view_ok, slots_clear, slots_entries, slots_get, slots_insert,
    slots_len, slots_new, slots_remove,
};
pub use crate::entity_slots::without_slot;

verus! {

/// A component of an entity which produces events at times of its own choosing.
pub trait RealtimeComponent: Sized {
    /// Events that this component emits each time it fires.
    type Event;

    /// Whether firing `self` may leave the component as `after`, emitting `event` and
    /// asking to fire again after `delay` nanoseconds.
    open spec fn ticked(&self, after: &Self, event: Self::Event, delay: u64) -> bool {
        true
    }

    /// Fires the component: updates its state and returns an event together with the
    /// delay in nanoseconds until the next firing.
    fn tick(&mut self) -> (r: (Self::Event, u64))
        ensures
            old(self).ticked(final(self), r.0, r.1),
    ;
}

/// Consumes events of a component kind against a context of type `C`.
pub trait RealtimeComponentApplyEvent<C>: RealtimeComponent {
    /// Whether applying `event` of `entity` may turn the context `before` into `after`.
    open spec fn applied(event: Self::Event, entity: Entity, before: C, after: C) -> bool {
        true
    }

    /// Applies an event emitted by the component of `entity` to the context. This is
    /// separate from `tick` so that the context may hold the component's own table.
    fn apply_event(event: Self::Event, entity: Entity, context: &mut C)
        ensures
            Self::applied(event, entity, *old(context), *final(context)),
    ;
}

/// A component together with the time in nanoseconds until it fires next.
#[derive(Debug, Clone)]
pub struct ScheduledRealtimeComponent<T> {
    pub component: T,
    pub until_next_tick: u64,
}

/// The record of `e` in `m`, had it waited `elapsed` without firing.
pub open spec fn waited<T>(
    m: Map<Entity, ScheduledRealtimeComponent<T>>,
    e: Entity,
    elapsed: u64,
) -> ScheduledRealtimeComponent<T> {
    ScheduledRealtimeComponent {
        component: m[e].component,
        until_next_tick: (m[e].until_next_tick - elapsed) as u64,
    }
}

/// `next` and `event` are what one step of length `elapsed` for `e` makes of the table
/// `m`: a record due at exactly `elapsed` fires, emitting the event and taking the state
/// and the delay that its tick returned; any other record waits `elapsed` less and
/// emits nothing; the records of other entities stay as they are.
pub open spec fn kind_stepped<T: RealtimeComponent>(
    m: Map<Entity, ScheduledRealtimeComponent<T>>,
    next: Map<Entity, ScheduledRealtimeComponent<T>>,
    e: Entity,
    elapsed: u64,
    event: Option<T::Event>,
) -> bool {
    if m.contains_key(e) {
        &&& next.contains_key(e)
        &&& next == m.insert(e, next[e])
        &&& if m[e].until_next_tick == elapsed {
            &&& event is Some
            &&& m[e].component.ticked(&next[e].component, event->Some_0, next[e].until_next_tick)
        } else {
            next[e] == waited(m, e, elapsed) && event is None
        }
    } else {
        next == m && event is None
    }
}

/// `bound`, or the delay of the record of `e` where that is smaller.
pub open spec fn due_within<T>(
    m: Map<Entity, ScheduledRealtimeComponent<T>>,
    e: Entity,
    bound: u64,
) -> u64 {
    if m.contains_key(e) && m[e].until_next_tick < bound {
        m[e].until_next_tick
    } else {
        bound
    }
}

/// Storage of a component table. The entity keys live in an `entity_table` table that
/// maps each entity to a slot of `records`; slots freed by removal are kept in `free`
/// for reuse.
pub(crate) struct SlotStore<T> {
    slots: ComponentTable<usize>,
    records: Vec<Option<ScheduledRealtimeComponent<T>>>,
    free: Vec<usize>,
}

impl<T> View for SlotStore<T> {
    type V = Map<Entity, ScheduledRealtimeComponent<T>>;

    closed spec fn view(&self) -> Self::V {
        let recs = self.records@;
        slot_contents(self.slots).map_values(|s: usize| recs[s as int]->Some_0)
    }
}

impl<T> SlotStore<T> {
    /// Each stored entity owns a distinct filled slot, no two stored entities share an
    /// entity slot, and free slots are distinct and owned by nobody.
    pub closed spec fn wf(&self) -> bool {
        let m = slot_contents(self.slots);
        &&& m.dom().finite()
        &&& one_per_index(m)
        &&& forall|e: Entity| #[trigger] m.contains_key(e) ==> m[e] < self.records@.len()
            && self.records@[m[e] as int] is Some
        &&& forall|a: Entity, b: Entity|
            #![trigger m.contains_key(a), m.contains_key(b)]
            m.contains_key(a) && m.contains_key(b) && m[a] == m[b] ==> a == b
        &&& forall|i: int| 0 <= i < self.free@.len() ==> #[trigger] self.free@[i] < self.records@.len()
        &&& forall|i: int, e: Entity|
            0 <= i < self.free@.len() && #[trigger] m.contains_key(e) ==> m[e] != #[trigger] self.free@[i]
        &&& forall|i: int, j: int| 0 <= i < j < self.free@.len() ==> self.free@[i] != self.free@[j]
    }

    /// An empty table.
    /// The order in which the store lists its entities.
    pub(crate) closed spec fn order(&self) -> Seq<Entity> {
        slot_order(self.slots)
    }

    /// The contents of a well-formed store are finite, one handle per entity slot.
    proof fn lemma_view_ok(&self)
        requires
            self.wf(),
        ensures
            view_ok(self@),
    {
        assert(self@.dom() =~= slot_contents(self.slots).dom());
    }

    pub(crate) fn new() -> (r: Self)
        ensures
            r.wf(),
            r@.is_empty(),
    {
        SlotStore { slots: slots_new(), records: Vec::new(), free: Vec::new() }
    }

    /// Drops every record.
    pub(crate) fn clear(&mut self)
        ensures
            final(self).wf(),
            final(self)@.is_empty(),
    {
        slots_clear(&mut self.slots);
        self.records.clear();
        self.free.clear();
        assert(self@ =~= Map::empty());
    }

    /// The number of stored records.
    pub(crate) fn len(&self) -> (r: usize)
        requires
            self.wf(),
        ensures
            r as nat == self@.len(),
    {
        assert(self@.dom() =~= slot_contents(self.slots).dom());
        slots_len(&self.slots)
    }

    /// The record of `entity`, if there is one, to modify in place.
    pub(crate) fn get_mut(&mut self, entity: Entity) -> (r: Option<&mut ScheduledRealtimeComponent<T>>)
        requires
            old(self).wf(),
        ensures
            old(self)@.contains_key(entity) == (r is Some),
            r is Some ==> {
                &&& *r->Some_0 == old(self)@[entity]
                &&& final(self)@ == old(self)@.insert(entity, *final(r->Some_0))
            },
            r is None ==> final(self)@ == old(self)@,
            final(self).wf(),
        no_unwind
    {
        match slots_get(&self.slots, entity) {
            Some(s) => match &mut self.records[s] {
                Some(rec) => Some(rec),
                None => None,
            },
            None => None,
        }
    }

    /// Every stored entity with its record, each entity once, in the table's `order`.
    pub(crate) fn records_list(&self) -> (r: Vec<(Entity, &ScheduledRealtimeComponent<T>)>)
        requires
            self.wf(),
        ensures
            forall|i: int| 0 <= i < r@.len() ==> self@.contains_key(#[trigger] r@[i].0)
                && *r@[i].1 == self@[r@[i].0],
            forall|e: Entity| #[trigger] self@.contains_key(e) ==> exists|i: int| 0 <= i < r@.len() && r@[i].0 == e,
            forall|i: int, j: int| 0 <= i < j < r@.len() ==> r@[i].0 != r@[j].0,
            r@.len() == self@.len(),
            r@.map_values(|p: (Entity, &ScheduledRealtimeComponent<T>)| p.0) == self.order(),
    {
        let entries = slots_entries(&self.slots);
        let ghost m = slot_contents(self.slots);
        let mut out: Vec<(Entity, &ScheduledRealtimeComponent<T>)> = Vec::new();
        let mut i: usize = 0;
        while i < entries.len()
            invariant
                i <= entries@.len(),
                out@.len() == i,
                self.wf(),
                m == slot_contents(self.slots),
                forall|k: int| 0 <= k < entries@.len() ==> m.contains_key(#[trigger] entries@[k].0)
                    && m[entries@[k].0] == entries@[k].1,
                forall|k: int| 0 <= k < i ==> (#[trigger] out@[k]).0 == entries@[k].0
                    && *out@[k].1 == self@[entries@[k].0],
            decreases entries@.len() - i,
        {
            let (e, s) = entries[i];
            let rec = self.records[s].as_ref().unwrap();
            out.push((e, rec));
            i = i + 1;
        }
        proof {
            assert forall|e: Entity| #[trigger] self@.contains_key(e) implies exists|k: int| 0 <= k < out@.len() && out@[k].0 == e by {
                let k = choose|k: int| 0 <= k < entries@.len() && entries@[k].0 == e;
                assert(out@[k].0 == e);
            }
            assert forall|a: int, b: int| 0 <= a < b < out@.len() implies out@[a].0 != out@[b].0 by {
                assert(out@[a].0 == entries@[a].0 && out@[b].0 == entries@[b].0);
            }
            assert(self@.dom() =~= m.dom());
            assert(out@.map_values(|p: (Entity, &ScheduledRealtimeComponent<T>)| p.0)
                =~= entries@.map_values(|p: (Entity, usize)| p.0));
        }
        out
    }

    /// The record of `entity`, if there is one.
    pub(crate) fn get(&self, entity: Entity) -> (r: Option<&ScheduledRealtimeComponent<T>>)
        requires
            self.wf(),
        ensures
            r == (if self@.contains_key(entity) { Some(&self@[entity]) } else { None }),
    {
        match slots_get(&self.slots, entity) {
            Some(s) => self.records[s].as_ref(),
            None => None,
        }
    }

    /// Whether `entity` has a component in this table.
    pub(crate) fn contains(&self, entity: Entity) -> (r: bool)
        requires
            self.wf(),
        ensures
            r == self@.contains_key(entity),
    {
        slots_get(&self.slots, entity).is_some()
    }

    /// Stores `data` for `entity`, returning the record it replaces. An entry left by an
    /// older handle of the same entity slot is dropped.
    pub(crate) fn insert_with_schedule(
        &mut self,
        entity: Entity,
        data: ScheduledRealtimeComponent<T>,
    ) -> (r: Option<ScheduledRealtimeComponent<T>>)
        requires
            old(self).wf(),
        ensures
            final(self).wf(),
            final(self)@ == without_slot(old(self)@, entity).insert(entity, data),
            r == (if old(self)@.contains_key(entity) { Some(old(self)@[entity]) } else { None }),
    {
        let ghost m0 = slot_contents(self.slots);
        match slots_get(&self.slots, entity) {
            Some(s) => {
                let prev = self.records[s].take();
                self.records[s] = Some(data);
                proof {
                    let m = slot_contents(self.slots);
                    assert(m == m0);
                    assert(self@ =~= without_slot(old(self)@, entity).insert(entity, data)) by {
                        assert forall|k: Entity| #[trigger] m.contains_key(k) && k != entity implies m[k] != s by {}
                    }
                }
                prev
            },
            None => {
                let s: usize = match self.free.pop() {
                    Some(s) => {
                        self.records[s] = Some(data);
                        s
                    },
                    None => {
                        self.records.push(Some(data));
                        self.records.len() - 1
                    },
                };
                let _ = slots_insert(&mut self.slots, entity, s);
                proof {
                    let m = slot_contents(self.slots);
                    assert forall|k: Entity| #[trigger] m.contains_key(k) && k != entity implies m0.contains_key(k) && m[k] == m0[k] && m[k] != s by {}
                    assert forall|a: Entity, b: Entity| m.contains_key(a) && m.contains_key(b) && entity_index(a) == entity_index(b) implies a == b by {
                        if a != entity && b != entity {
                            assert(m0.contains_key(a) && m0.contains_key(b));
                        }
                    }
                    assert(self@ =~= without_slot(old(self)@, entity).insert(entity, data));
                }
                None
            },
        }
    }

    /// Takes out the record of `entity`, if there is one.
    pub(crate) fn remove_with_schedule(&mut self, entity: Entity) -> (r: Option<ScheduledRealtimeComponent<T>>)
        requires
            old(self).wf(),
        ensures
            final(self).wf(),
            final(self)@ == old(self)@.remove(entity),
            old(self)@.contains_key(entity) ==> r == Some(old(self)@[entity]),
            !old(self)@.contains_key(entity) ==> r is None,
    {
        let ghost m0 = slot_contents(self.slots);
        match slots_get(&self.slots, entity) {
            Some(s) => {
                let _ = slots_remove(&mut self.slots, entity);
                let prev = self.records[s].take();
                self.free.push(s);
                proof {
                    let m = slot_contents(self.slots);
                    assert forall|k: Entity| #[trigger] m.contains_key(k) implies m0.contains_key(k) && m[k] == m0[k] && m[k] != s && k != entity by {}
                    assert(self.free@[self.free@.len() - 1] == s);
                    assert forall|i: int, k: Entity| 0 <= i < self.free@.len() && #[trigger] m.contains_key(k) implies m[k] != #[trigger] self.free@[i] by {
                        if i < self.free@.len() - 1 {
                            assert(self.free@[i] == old(self).free@[i]);
                        }
                    }
                    assert forall|i: int, j: int| 0 <= i < j < self.free@.len() implies self.free@[i] != self.free@[j] by {
                        if j == self.free@.len() - 1 {
                            assert(old(self).free@[i] == self.free@[i]);
                        }
                    }
                    assert(self@ =~= old(self)@.remove(entity));
                }
                prev
            },
            None => {
                assert(old(self)@ =~= old(self)@.remove(entity));
                None
            },
        }
    }
}

impl<T: RealtimeComponent> SlotStore<T> {
    /// `bound`, lowered to the delay of the component of `entity` where that is smaller.
    pub(crate) fn earliest_due(&self, entity: Entity, bound: u64) -> (r: u64)
        requires
            self.wf(),
        ensures
            r == due_within(self@, entity, bound),
    {
        match slots_get(&self.slots, entity) {
            Some(s) => match &self.records[s] {
                Some(rec) => if rec.until_next_tick < bound {
                    rec.until_next_tick
                } else {
                    bound
                },
                None => bound,
            },
            None => bound,
        }
    }

    /// Advances the component of `entity` by `elapsed`: it fires if it is due at exactly
    /// `elapsed`, and otherwise waits `elapsed` less. Returns the event it emitted.
    pub(crate) fn advance(&mut self, entity: Entity, elapsed: u64) -> (r: Option<T::Event>)
        requires
            old(self).wf(),
            old(self)@.contains_key(entity) ==> elapsed <= old(self)@[entity].until_next_tick,
        ensures
            final(self).wf(),
            kind_stepped(old(self)@, final(self)@, entity, elapsed, r),
    {
        let ghost m0 = slot_contents(self.slots);
        match slots_get(&self.slots, entity) {
            Some(s) => {
                let mut rec = self.records[s].take().unwrap();
                let ev = if rec.until_next_tick == elapsed {
                    let (ev, delay) = rec.component.tick();
                    rec.until_next_tick = delay;
                    Some(ev)
                } else {
                    rec.until_next_tick = rec.until_next_tick - elapsed;
                    None
                };
                self.records[s] = Some(rec);
                proof {
                    assert forall|k: Entity| #[trigger] m0.contains_key(k) && k != entity implies m0[k] != s by {}
                    assert(self@ =~= old(self)@.insert(entity, self@[entity]));
                }
                ev
            },
            None => None,
        }
    }
}

/// Sparse table from entity to a component of kind `T` and the time until it fires.
pub struct RealtimeComponentTable<T> {
    store: SlotStore<T>,
}

impl<T> View for RealtimeComponentTable<T> {
    type V = Map<Entity, ScheduledRealtimeComponent<T>>;

    closed spec fn view(&self) -> Self::V {
        self.store@
    }
}

impl<T> RealtimeComponentTable<T> {
    /// The order in which the table lists its entities; it changes only when the table
    /// is modified.
    pub closed spec fn order(&self) -> Seq<Entity> {
        self.store.order()
    }

    #[verifier::type_invariant]
    spec fn well_formed(&self) -> bool {
        self.store.wf()
    }

    /// An empty table.
    pub fn new() -> (r: Self)
        ensures
            view_ok(r@),
            r@.is_empty(),
    {
        let store = SlotStore::new();
        proof {
            store.lemma_view_ok();
        }
        RealtimeComponentTable { store }
    }

    /// Drops every record.
    pub fn clear(&mut self)
        ensures
            view_ok(final(self)@),
            final(self)@.is_empty(),
    {
        let mut store = SlotStore::new();
        std::mem::swap(&mut store, &mut self.store);
        store.clear();
        proof {
            store.lemma_view_ok();
        }
        self.store = store;
    }

    /// Whether the table holds no record.
    pub fn is_empty(&self) -> (r: bool)
        ensures
            view_ok(self@),
            r == self@.is_empty(),
    {
        proof {
            use_type_invariant(self);
            self.store.lemma_view_ok();
            assert(self@.dom() =~= slot_contents(self.store.slots).dom());
            if self@.len() == 0 {
                self@.dom().lemma_len0_is_empty();
            }
        }
        self.store.len() == 0
    }

    /// The number of records.
    pub fn len(&self) -> (r: usize)
        ensures
            view_ok(self@),
            r as nat == self@.len(),
    {
        proof {
            use_type_invariant(self);
            self.store.lemma_view_ok();
        }
        self.store.len()
    }

    /// Stores `data` for `entity`, returning the record it replaces. An entry left by an
    /// older handle of the same entity slot is dropped.
    pub fn insert_with_schedule(
        &mut self,
        entity: Entity,
        data: ScheduledRealtimeComponent<T>,
    ) -> (r: Option<ScheduledRealtimeComponent<T>>)
        ensures
            view_ok(final(self)@),
            final(self)@ == without_slot(old(self)@, entity).insert(entity, data),
            r == (if old(self)@.contains_key(entity) { Some(old(self)@[entity]) } else { None }),
    {
        proof {
            use_type_invariant(&*self);
        }
        let mut store = SlotStore::new();
        std::mem::swap(&mut store, &mut self.store);
        let r = store.insert_with_schedule(entity, data);
        proof {
            store.lemma_view_ok();
        }
        self.store = store;
        r
    }

    /// Stores `data` for `entity`, due to fire at once, returning the component it
    /// replaces.
    pub fn insert(&mut self, entity: Entity, data: T) -> (r: Option<T>)
        ensures
            view_ok(final(self)@),
            final(self)@ == without_slot(old(self)@, entity).insert(
                entity,
                ScheduledRealtimeComponent { component: data, until_next_tick: 0 },
            ),
            r == (if old(self)@.contains_key(entity) { Some(old(self)@[entity].component) } else { None }),
    {
        match self.insert_with_schedule(entity, ScheduledRealtimeComponent { component: data, until_next_tick: 0 }) {
            Some(c) => Some(c.component),
            None => None,
        }
    }

    /// Whether `entity` has a component in this table.
    pub fn contains(&self, entity: Entity) -> (r: bool)
        ensures
            r == self@.contains_key(entity),
    {
        proof {
            use_type_invariant(self);
        }
        self.store.contains(entity)
    }

    /// Takes out the record of `entity`, if there is one.
    pub fn remove_with_schedule(&mut self, entity: Entity) -> (r: Option<ScheduledRealtimeComponent<T>>)
        ensures
            view_ok(final(self)@),
            final(self)@ == old(self)@.remove(entity),
            r == (if old(self)@.contains_key(entity) { Some(old(self)@[entity]) } else { None }),
    {
        proof {
            use_type_invariant(&*self);
        }
        let mut store = SlotStore::new();
        std::mem::swap(&mut store, &mut self.store);
        let r = store.remove_with_schedule(entity);
        proof {
            store.lemma_view_ok();
        }
        self.store = store;
        r
    }

    /// Takes out the component of `entity`, if there is one.
    pub fn remove(&mut self, entity: Entity) -> (r: Option<T>)
        ensures
            view_ok(final(self)@),
            final(self)@ == old(self)@.remove(entity),
            r == (if old(self)@.contains_key(entity) { Some(old(self)@[entity].component) } else { None }),
    {
        match self.remove_with_schedule(entity) {
            Some(c) => Some(c.component),
            None => None,
        }
    }

    /// The record of `entity`, if there is one.
    pub fn get_with_schedule(&self, entity: Entity) -> (r: Option<&ScheduledRealtimeComponent<T>>)
        ensures
            r == (if self@.contains_key(entity) { Some(&self@[entity]) } else { None }),
    {
        proof {
            use_type_invariant(self);
        }
        self.store.get(entity)
    }

    /// The record of `entity`, if there is one, to modify in place.
    pub fn get_with_schedule_mut(&mut self, entity: Entity) -> (r: Option<&mut ScheduledRealtimeComponent<T>>)
        ensures
            old(self)@.contains_key(entity) == (r is Some),
            r is Some ==> {
                &&& *r->Some_0 == old(self)@[entity]
                &&& final(self)@ == old(self)@.insert(entity, *final(r->Some_0))
            },
            r is None ==> final(self)@ == old(self)@,
    {
        proof {
            use_type_invariant(&*self);
        }
        self.store.get_mut(entity)
    }

    /// The component of `entity`, if there is one, to modify in place; its schedule is
    /// kept.
    pub fn get_mut(&mut self, entity: Entity) -> (r: Option<&mut T>)
        ensures
            old(self)@.contains_key(entity) == (r is Some),
            r is Some ==> {
                &&& *r->Some_0 == old(self)@[entity].component
                &&& final(self)@ == old(self)@.insert(
                    entity,
                    ScheduledRealtimeComponent {
                        component: *final(r->Some_0),
                        until_next_tick: old(self)@[entity].until_next_tick,
                    },
                )
            },
            r is None ==> final(self)@ == old(self)@,
    {
        match self.get_with_schedule_mut(entity) {
            Some(c) => Some(&mut c.component),
            None => None,
        }
    }

    /// Every stored entity with its record, each entity once, in the table's `order`.
    pub fn iter_with_schedule(&self) -> (r: Vec<(Entity, &ScheduledRealtimeComponent<T>)>)
        ensures
            forall|i: int| 0 <= i < r@.len() ==> self@.contains_key(#[trigger] r@[i].0)
                && *r@[i].1 == self@[r@[i].0],
            forall|e: Entity| #[trigger] self@.contains_key(e) ==> exists|i: int| 0 <= i < r@.len() && r@[i].0 == e,
            forall|i: int, j: int| 0 <= i < j < r@.len() ==> r@[i].0 != r@[j].0,
            r@.len() == self@.len(),
            r@.map_values(|p: (Entity, &ScheduledRealtimeComponent<T>)| p.0) == self.order(),
    {
        proof {
            use_type_invariant(self);
        }
        self.store.records_list()
    }

    /// Every stored entity with its component, each entity once, in the table's `order`.
    pub fn iter(&self) -> (r: Vec<(Entity, &T)>)
        ensures
            forall|i: int| 0 <= i < r@.len() ==> self@.contains_key(#[trigger] r@[i].0)
                && *r@[i].1 == self@[r@[i].0].component,
            forall|e: Entity| #[trigger] self@.contains_key(e) ==> exists|i: int| 0 <= i < r@.len() && r@[i].0 == e,
            forall|i: int, j: int| 0 <= i < j < r@.len() ==> r@[i].0 != r@[j].0,
            r@.len() == self@.len(),
            r@.map_values(|p: (Entity, &T)| p.0) == self.order(),
    {
        let all = self.iter_with_schedule();
        let mut out: Vec<(Entity, &T)> = Vec::new();
        let mut i: usize = 0;
        while i < all.len()
            invariant
                i <= all@.len(),
                out@.len() == i,
                forall|k: int| 0 <= k < i ==> (#[trigger] out@[k]).0 == all@[k].0
                    && *out@[k].1 == all@[k].1.component,
            decreases all@.len() - i,
        {
            let (e, rec) = all[i];
            out.push((e, &rec.component));
            i = i + 1;
        }
        proof {
            assert forall|e: Entity| #[trigger] self@.contains_key(e) implies exists|k: int| 0 <= k < out@.len() && out@[k].0 == e by {
                let k = choose|k: int| 0 <= k < all@.len() && all@[k].0 == e;
                assert(out@[k].0 == e);
            }
            assert(out@.map_values(|p: (Entity, &T)| p.0)
                =~= all@.map_values(|p: (Entity, &ScheduledRealtimeComponent<T>)| p.0));
        }
        out
    }

    /// Every stored entity, each once, in the table's `order`.
    pub fn entities(&self) -> (r: Vec<Entity>)
        ensures
            forall|i: int| 0 <= i < r@.len() ==> self@.contains_key(#[trigger] r@[i]),
            forall|e: Entity| #[trigger] self@.contains_key(e) ==> r@.contains(e),
            forall|i: int, j: int| 0 <= i < j < r@.len() ==> r@[i] != r@[j],
            r@.len() == self@.len(),
            r@ == self.order(),
    {
        let all = self.iter_with_schedule();
        let mut out: Vec<Entity> = Vec::new();
        let mut i: usize = 0;
        while i < all.len()
            invariant
                i <= all@.len(),
                out@.len() == i,
                forall|k: int| 0 <= k < i ==> #[trigger] out@[k] == all@[k].0,
            decreases all@.len() - i,
        {
            out.push(all[i].0);
            i = i + 1;
        }
        proof {
            assert forall|e: Entity| #[trigger] self@.contains_key(e) implies out@.contains(e) by {
                let k = choose|k: int| 0 <= k < all@.len() && all@[k].0 == e;
                assert(out@[k] == e);
            }
            assert(out@ =~= all@.map_values(|p: (Entity, &ScheduledRealtimeComponent<T>)| p.0));
        }
        out
    }

    /// The component of `entity`, if there is one.
    pub fn get(&self, entity: Entity) -> (r: Option<&T>)
        ensures
            r == (if self@.contains_key(entity) { Some(&self@[entity].component) } else { None }),
    {
        match self.get_with_schedule(entity) {
            Some(c) => Some(&c.component),
            None => None,
        }
    }
}

impl<T> Default for RealtimeComponentTable<T> {
    fn default() -> (r: Self)
        ensures
            r@.is_empty(),
            view_ok(r@),
    {
        Self::new()
    }
}

impl<T: RealtimeComponent> RealtimeComponentTable<T> {
    /// `bound`, lowered to the delay of the component of `entity` where that is smaller.
    pub fn earliest_due(&self, entity: Entity, bound: u64) -> (r: u64)
        ensures
            r == due_within(self@, entity, bound),
    {
        proof {
            use_type_invariant(self);
        }
        self.store.earliest_due(entity, bound)
    }

    /// Advances the component of `entity` by `elapsed`: it fires if it is due at exactly
    /// `elapsed`, and otherwise waits `elapsed` less. Returns the event it emitted.
    pub fn advance(&mut self, entity: Entity, elapsed: u64) -> (r: Option<T::Event>)
        requires
            old(self)@.contains_key(entity) ==> elapsed <= old(self)@[entity].until_next_tick,
        ensures
            view_ok(final(self)@),
            kind_stepped(old(self)@, final(self)@, entity, elapsed, r),
    {
        proof {
            use_type_invariant(&*self);
        }
        let mut store = SlotStore::new();
        std::mem::swap(&mut store, &mut self.store);
        let r = store.advance(entity, elapsed);
        proof {
            store.lemma_view_ok();
        }
        self.store = store;
        r
    }
}

/// The table `m` after each `(entity, op)` of `ops` in turn, where `Some(v)` is an
/// `insert` of `v` and `None` a `remove`.
pub open spec fn after_ops<T>(
    m: Map<Entity, ScheduledRealtimeComponent<T>>,
    ops: Seq<(Entity, Option<T>)>,
) -> Map<Entity, ScheduledRealtimeComponent<T>>
    decreases ops.len(),
{
    if ops.len() == 0 {
        m
    } else {
        let before = after_ops(m, ops.drop_last());
        let (x, op) = ops.last();
        match op {
            Some(v) => without_slot(before, x).insert(
                x,
                ScheduledRealtimeComponent { component: v, until_next_tick: 0 },
            ),
            None => before.remove(x),
        }
    }
}

/// Whether the latest operation on `e` in `ops` is an insert; with none, whether `m`
/// holds `e`.
pub open spec fn latest_is_insert<T>(
    m: Map<Entity, ScheduledRealtimeComponent<T>>,
    ops: Seq<(Entity, Option<T>)>,
    e: Entity,
) -> bool
    decreases ops.len(),
{
    if ops.len() == 0 {
        m.contains_key(e)
    } else if ops.last().0 == e {
        ops.last().1 is Some
    } else {
        latest_is_insert(m, ops.drop_last(), e)
    }
}

/// After any run of inserts and removes, a table holds `e` exactly when the latest of
/// them on `e` was an insert (or, with none, when it held `e` before), provided no
/// other handle of the entity slot of `e` takes part.
pub proof fn lemma_latest_operation_wins<T>(
    m: Map<Entity, ScheduledRealtimeComponent<T>>,
    ops: Seq<(Entity, Option<T>)>,
    e: Entity,
)
    requires
        forall|i: int| 0 <= i < ops.len() && entity_index(#[trigger] ops[i].0) == entity_index(e) ==> ops[i].0 == e,
    ensures
        after_ops(m, ops).contains_key(e) == latest_is_insert(m, ops, e),
    decreases ops.len(),
{
    if ops.len() > 0 {
        let rest = ops.drop_last();
        assert forall|i: int| 0 <= i < rest.len() && entity_index(#[trigger] rest[i].0) == entity_index(e) implies rest[i].0 == e by {
            assert(rest[i] == ops[i]);
        }
        lemma_latest_operation_wins(m, rest, e);
        assert(ops.last() == ops[ops.len() - 1]);
    }
}

} // verus!
