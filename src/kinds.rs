use vstd::prelude::*;
use entity_table::Entity;
use crate::table::{
    due_within, kind_stepped, without_slot, RealtimeComponent, RealtimeComponentApplyEvent,
    RealtimeComponentTable, ScheduledRealtimeComponent,
};

verus! {

/// Events of one entity, one slot per kind, produced by one scheduling step.
pub trait RealtimeEntityEvents<C>: Sized {
    /// Whether handing the events of `self`, kind by kind in declared order, to their
    /// kinds' apply operations may turn the context `before` into `after`.
    spec fn all_applied(self, entity: Entity, before: C, after: C) -> bool;

    /// Hands each event to its kind's apply operation, in the order the kinds were
    /// declared.
    fn apply(self, entity: Entity, context: &mut C)
        ensures
            self.all_applied(entity, *old(context), *final(context)),
    ;
}

/// A fixed set of component kinds, one table per kind, with context type `C` for
/// their events.
pub trait RealtimeComponents<C>: Sized {
    type EntityEvents: RealtimeEntityEvents<C>;

    /// The components of one entity, one optional slot per kind, without schedule.
    type EntityData;

    /// Every table is empty.
    spec fn all_empty(&self) -> bool;

    /// `next` holds the tables of `self` with every entry of `e` taken out.
    spec fn without_entity(&self, next: &Self, e: Entity) -> bool;

    /// The components of `e`, one slot per kind.
    spec fn data_of(&self, e: Entity) -> Self::EntityData;

    /// `next` holds the tables of `self` after storing each component of `data` for `e`,
    /// due at once; where `data` has no component of a kind, that kind's entry of `e` is
    /// taken out if `drop_absent`, and kept otherwise.
    spec fn with_data(&self, next: &Self, e: Entity, data: Self::EntityData, drop_absent: bool) -> bool;

    /// `data` has a component in exactly the kinds in which `e` has one.
    spec fn same_kinds(&self, e: Entity, data: Self::EntityData) -> bool;

    /// Every component of `e` is due at once.
    spec fn all_due_now(&self, e: Entity) -> bool;

    /// `self` and `other` hold the same records for `e`, kind by kind.
    spec fn same_records(&self, other: &Self, e: Entity) -> bool;

    /// Taking the components of `e` out of `self` and storing them into empty tables
    /// gives back the records of `e`, when those were all due at once.
    proof fn lemma_round_trip(&self, mid: &Self, empty: &Self, restored: &Self, e: Entity)
        requires
            self.all_due_now(e),
            self.without_entity(mid, e),
            empty.all_empty(),
            empty.with_data(restored, e, self.data_of(e), false),
        ensures
            restored.same_records(self, e),
    ;

    /// Tables with the same records for `e` schedule `e` alike: the same earliest
    /// moment for every bound.
    proof fn lemma_same_records_same_earliest(&self, other: &Self, e: Entity, bound: u64)
        requires
            self.same_records(other, e),
        ensures
            self.earliest(e, bound) == other.earliest(e, bound),
    ;

    /// No slot of `events` holds an event.
    spec fn quiet(events: Self::EntityEvents) -> bool;

    /// `a` and `b` hold an event in the same slots.
    spec fn same_firing(a: Self::EntityEvents, b: Self::EntityEvents) -> bool;

    /// Tables with the same records for `e` fire the same kinds of `e` in a step of
    /// the same length.
    proof fn lemma_same_records_same_firing(
        &self,
        other: &Self,
        next: &Self,
        other_next: &Self,
        e: Entity,
        elapsed: u64,
        events: Self::EntityEvents,
        other_events: Self::EntityEvents,
    )
        requires
            self.same_records(other, e),
            self.stepped(next, e, elapsed, events),
            other.stepped(other_next, e, elapsed, other_events),
        ensures
            Self::same_firing(events, other_events),
    ;

    /// A smaller bound only caps the earliest moment: it is the smaller of `part` and
    /// the earliest moment under `whole`.
    proof fn lemma_earliest_min(&self, e: Entity, part: u64, whole: u64)
        requires
            part <= whole,
        ensures
            self.earliest(e, part) == if self.earliest(e, whole) < part {
                self.earliest(e, whole)
            } else {
                part
            },
    ;

    /// A step of length `part` that ends before the earliest moment under `whole` emits
    /// nothing, and afterwards the earliest moment under `whole - part` is that same
    /// moment, `part` nearer.
    proof fn lemma_gap_step(&self, next: &Self, e: Entity, part: u64, whole: u64, events: Self::EntityEvents)
        requires
            part <= whole,
            part < self.earliest(e, whole),
            self.stepped(next, e, part, events),
        ensures
            Self::quiet(events),
            next.earliest(e, (whole - part) as u64) == self.earliest(e, whole) - part,
    ;

    /// Empty tables for every kind.
    fn empty() -> (r: Self)
        ensures
            r.all_empty(),
    ;

    /// Empties every table.
    fn clear(&mut self)
        ensures
            final(self).all_empty(),
    ;

    /// A copy of each component of `entity`, one slot per kind.
    fn clone_entity_data(&self, entity: Entity) -> (r: Self::EntityData)
        ensures
            self.same_kinds(entity, r),
    ;

    /// Takes every component of `entity` out.
    fn remove_entity(&mut self, entity: Entity)
        ensures
            old(self).without_entity(final(self), entity),
    ;

    /// Takes every component of `entity` out and returns them.
    fn remove_entity_data(&mut self, entity: Entity) -> (r: Self::EntityData)
        ensures
            old(self).without_entity(final(self), entity),
            r == old(self).data_of(entity),
    ;

    /// Stores each component of `entity_data` for `entity`, due at once; kinds without
    /// a component in it are left as they are.
    fn insert_entity_data(&mut self, entity: Entity, entity_data: Self::EntityData)
        ensures
            old(self).with_data(final(self), entity, entity_data, false),
    ;

    /// Makes the components of `entity` those of `entity_data`: each is stored, due at
    /// once, and kinds without a component in it lose that of `entity`.
    fn update_entity_data(&mut self, entity: Entity, entity_data: Self::EntityData)
        ensures
            old(self).with_data(final(self), entity, entity_data, true),
    ;

    /// `bound`, lowered to the smallest delay among the components of `e`.
    spec fn earliest(&self, e: Entity, bound: u64) -> u64;

    /// No component of `e` is due before `t`.
    spec fn none_due_before(&self, e: Entity, t: u64) -> bool;

    /// `next` holds the tables of `self`, and `events` the events, after a step of
    /// length `elapsed` for `e`.
    spec fn stepped(&self, next: &Self, e: Entity, elapsed: u64, events: Self::EntityEvents) -> bool;

    /// A later bound is respected by every earlier time.
    proof fn lemma_none_due_before_mono(&self, e: Entity, t: u64, u: u64)
        requires
            self.none_due_before(e, t),
            u <= t,
        ensures
            self.none_due_before(e, u),
    ;

    /// Where no component of `e` is due before `t`, and `t` is within `bound`, the
    /// earliest moment is no earlier than `t`.
    proof fn lemma_earliest_at_least(&self, e: Entity, bound: u64, t: u64)
        requires
            self.none_due_before(e, t),
            t <= bound,
        ensures
            t <= self.earliest(e, bound),
    ;

    /// The smallest delay of `e`, capped at `bound`.
    fn earliest_due(&self, e: Entity, bound: u64) -> (r: u64)
        ensures
            r == self.earliest(e, bound),
            r <= bound,
            self.none_due_before(e, r),
    ;

    /// Steps every kind of `e` by `elapsed`.
    fn advance_all(&mut self, e: Entity, elapsed: u64) -> (r: Self::EntityEvents)
        requires
            old(self).none_due_before(e, elapsed),
        ensures
            old(self).stepped(final(self), e, elapsed, r),
    ;

    /// One scheduling step for `entity`: time advances to the earliest moment that a
    /// component of `entity` is due, capped at `frame_remaining`; every component due
    /// at exactly that moment fires. Returns the events and the time that passed.
    fn tick_entity(&mut self, entity: Entity, frame_remaining: u64) -> (r: (Self::EntityEvents, u64))
        ensures
            r.1 == old(self).earliest(entity, frame_remaining),
            r.1 <= frame_remaining,
            old(self).none_due_before(entity, r.1),
            old(self).stepped(final(self), entity, r.1, r.0),
    {
        let elapsed = self.earliest_due(entity, frame_remaining);
        let events = self.advance_all(entity, elapsed);
        (events, elapsed)
    }
}

/// A context that holds the component tables that its events act on.
pub trait ContextContainsRealtimeComponents: Sized {
    type Components: RealtimeComponents<Self>;

    /// The component tables held by this context.
    fn components_mut(&mut self) -> &mut Self::Components;
}

/// Runs one scheduling step for `entity` within what is left of a frame, applies its
/// events to the context, and returns what is left of the frame afterwards.
pub fn process_entity_step<C: ContextContainsRealtimeComponents>(
    entity: Entity,
    frame_remaining: u64,
    context: &mut C,
) -> (r: u64)
    ensures
        r <= frame_remaining,
{
    let (events, elapsed) = context.components_mut().tick_entity(entity, frame_remaining);
    events.apply(entity, context);
    frame_remaining - elapsed
}

/// The empty set of kinds.
pub struct NoComponents;

/// The events of the empty set of kinds.
pub struct NoEvents;

/// The components of an entity for the empty set of kinds.
pub struct NoData;

impl<C> RealtimeEntityEvents<C> for NoEvents {
    open spec fn all_applied(self, entity: Entity, before: C, after: C) -> bool {
        after == before
    }

    fn apply(self, entity: Entity, context: &mut C) {
    }
}

impl<C> RealtimeComponents<C> for NoComponents {
    type EntityEvents = NoEvents;

    type EntityData = NoData;

    open spec fn all_empty(&self) -> bool {
        true
    }

    open spec fn without_entity(&self, next: &Self, e: Entity) -> bool {
        true
    }

    open spec fn data_of(&self, e: Entity) -> NoData {
        NoData
    }

    open spec fn with_data(&self, next: &Self, e: Entity, data: NoData, drop_absent: bool) -> bool {
        true
    }

    open spec fn same_kinds(&self, e: Entity, data: NoData) -> bool {
        true
    }

    open spec fn all_due_now(&self, e: Entity) -> bool {
        true
    }

    open spec fn same_records(&self, other: &Self, e: Entity) -> bool {
        true
    }

    proof fn lemma_round_trip(&self, mid: &Self, empty: &Self, restored: &Self, e: Entity) {
    }

    open spec fn quiet(events: NoEvents) -> bool {
        true
    }

    open spec fn same_firing(a: NoEvents, b: NoEvents) -> bool {
        true
    }

    proof fn lemma_same_records_same_firing(
        &self,
        other: &Self,
        next: &Self,
        other_next: &Self,
        e: Entity,
        elapsed: u64,
        events: NoEvents,
        other_events: NoEvents,
    ) {
    }

    proof fn lemma_earliest_min(&self, e: Entity, part: u64, whole: u64) {
    }

    proof fn lemma_gap_step(&self, next: &Self, e: Entity, part: u64, whole: u64, events: NoEvents) {
    }

    proof fn lemma_same_records_same_earliest(&self, other: &Self, e: Entity, bound: u64) {
    }

    fn empty() -> (r: NoComponents) {
        NoComponents
    }

    fn clear(&mut self) {
    }

    fn clone_entity_data(&self, entity: Entity) -> (r: NoData) {
        NoData
    }

    fn remove_entity(&mut self, entity: Entity) {
    }

    fn remove_entity_data(&mut self, entity: Entity) -> (r: NoData) {
        NoData
    }

    fn insert_entity_data(&mut self, entity: Entity, entity_data: NoData) {
    }

    fn update_entity_data(&mut self, entity: Entity, entity_data: NoData) {
    }

    open spec fn earliest(&self, e: Entity, bound: u64) -> u64 {
        bound
    }

    open spec fn none_due_before(&self, e: Entity, t: u64) -> bool {
        true
    }

    open spec fn stepped(&self, next: &Self, e: Entity, elapsed: u64, events: NoEvents) -> bool {
        true
    }

    proof fn lemma_none_due_before_mono(&self, e: Entity, t: u64, u: u64) {
    }

    proof fn lemma_earliest_at_least(&self, e: Entity, bound: u64, t: u64) {
    }

    fn earliest_due(&self, e: Entity, bound: u64) -> (r: u64) {
        bound
    }

    fn advance_all(&mut self, e: Entity, elapsed: u64) -> (r: NoEvents) {
        NoEvents
    }
}

/// A kind `H`, in front of the kinds `R` declared after it.
pub struct WithComponent<H, R> {
    pub table: RealtimeComponentTable<H>,
    pub rest: R,
}

/// The event slot of kind `H`, in front of the slots of the kinds after it.
pub struct WithEvent<H: RealtimeComponent, R> {
    pub event: Option<H::Event>,
    pub rest: R,
}

/// The component of kind `H`, if any, in front of those of the kinds after it.
pub struct WithData<H, R> {
    pub data: Option<H>,
    pub rest: R,
}

/// `next` is the table `m` with `data` stored for `e`, due at once; with no `data`, the
/// entry of `e` is taken out if `drop_absent` and kept otherwise.
pub open spec fn kind_with_data<T>(
    m: Map<Entity, ScheduledRealtimeComponent<T>>,
    next: Map<Entity, ScheduledRealtimeComponent<T>>,
    e: Entity,
    data: Option<T>,
    drop_absent: bool,
) -> bool {
    match data {
        Some(v) => next == without_slot(m, e).insert(
            e,
            ScheduledRealtimeComponent { component: v, until_next_tick: 0 },
        ),
        None => if drop_absent {
            next == m.remove(e)
        } else {
            next == m
        },
    }
}

/// The two tables hold the same record for `e`, or neither holds one.
pub open spec fn same_record<T>(
    m: Map<Entity, ScheduledRealtimeComponent<T>>,
    other: Map<Entity, ScheduledRealtimeComponent<T>>,
    e: Entity,
) -> bool {
    m.contains_key(e) == other.contains_key(e) && (m.contains_key(e) ==> m[e] == other[e])
}

impl<C, H: RealtimeComponentApplyEvent<C>, R: RealtimeEntityEvents<C>> RealtimeEntityEvents<C> for WithEvent<H, R> {
    open spec fn all_applied(self, entity: Entity, before: C, after: C) -> bool {
        match self.event {
            Some(ev) => exists|mid: C|
                H::applied(ev, entity, before, mid) && #[trigger] self.rest.all_applied(entity, mid, after),
            None => self.rest.all_applied(entity, before, after),
        }
    }

    fn apply(self, entity: Entity, context: &mut C) {
        let ghost before = *context;
        let WithEvent { event, rest } = self;
        match event {
            Some(event) => {
                H::apply_event(event, entity, context);
                let ghost mid = *context;
                rest.apply(entity, context);
                assert(H::applied(event, entity, before, mid) && rest.all_applied(entity, mid, *context));
            },
            None => {
                rest.apply(entity, context);
            },
        }
    }
}

impl<C, H: RealtimeComponentApplyEvent<C> + Clone, R: RealtimeComponents<C>> RealtimeComponents<C> for WithComponent<
    H,
    R,
> {
    type EntityEvents = WithEvent<H, R::EntityEvents>;

    type EntityData = WithData<H, R::EntityData>;

    open spec fn all_empty(&self) -> bool {
        self.table@.is_empty() && self.rest.all_empty()
    }

    open spec fn without_entity(&self, next: &Self, e: Entity) -> bool {
        next.table@ == self.table@.remove(e) && self.rest.without_entity(&next.rest, e)
    }

    open spec fn data_of(&self, e: Entity) -> WithData<H, R::EntityData> {
        WithData {
            data: if self.table@.contains_key(e) { Some(self.table@[e].component) } else { None },
            rest: self.rest.data_of(e),
        }
    }

    open spec fn with_data(
        &self,
        next: &Self,
        e: Entity,
        data: WithData<H, R::EntityData>,
        drop_absent: bool,
    ) -> bool {
        kind_with_data(self.table@, next.table@, e, data.data, drop_absent)
            && self.rest.with_data(&next.rest, e, data.rest, drop_absent)
    }

    open spec fn same_kinds(&self, e: Entity, data: WithData<H, R::EntityData>) -> bool {
        (data.data is Some <==> self.table@.contains_key(e)) && self.rest.same_kinds(e, data.rest)
    }

    open spec fn all_due_now(&self, e: Entity) -> bool {
        (self.table@.contains_key(e) ==> self.table@[e].until_next_tick == 0) && self.rest.all_due_now(e)
    }

    open spec fn same_records(&self, other: &Self, e: Entity) -> bool {
        same_record(self.table@, other.table@, e) && self.rest.same_records(&other.rest, e)
    }

    proof fn lemma_round_trip(&self, mid: &Self, empty: &Self, restored: &Self, e: Entity) {
        self.rest.lemma_round_trip(&mid.rest, &empty.rest, &restored.rest, e);
    }

    open spec fn quiet(events: WithEvent<H, R::EntityEvents>) -> bool {
        events.event is None && R::quiet(events.rest)
    }

    open spec fn same_firing(a: WithEvent<H, R::EntityEvents>, b: WithEvent<H, R::EntityEvents>) -> bool {
        (a.event is Some <==> b.event is Some) && R::same_firing(a.rest, b.rest)
    }

    proof fn lemma_same_records_same_firing(
        &self,
        other: &Self,
        next: &Self,
        other_next: &Self,
        e: Entity,
        elapsed: u64,
        events: WithEvent<H, R::EntityEvents>,
        other_events: WithEvent<H, R::EntityEvents>,
    ) {
        self.rest.lemma_same_records_same_firing(
            &other.rest,
            &next.rest,
            &other_next.rest,
            e,
            elapsed,
            events.rest,
            other_events.rest,
        );
    }

    proof fn lemma_earliest_min(&self, e: Entity, part: u64, whole: u64) {
        self.rest.lemma_earliest_min(e, part, whole);
    }

    proof fn lemma_gap_step(
        &self,
        next: &Self,
        e: Entity,
        part: u64,
        whole: u64,
        events: WithEvent<H, R::EntityEvents>,
    ) {
        self.rest.lemma_gap_step(&next.rest, e, part, whole, events.rest);
    }

    proof fn lemma_same_records_same_earliest(&self, other: &Self, e: Entity, bound: u64) {
        self.rest.lemma_same_records_same_earliest(&other.rest, e, bound);
    }

    fn empty() -> (r: WithComponent<H, R>) {
        WithComponent { table: RealtimeComponentTable::new(), rest: R::empty() }
    }

    fn clear(&mut self) {
        self.table.clear();
        self.rest.clear();
    }

    fn clone_entity_data(&self, entity: Entity) -> (r: WithData<H, R::EntityData>) {
        let data = match self.table.get(entity) {
            Some(c) => Some(c.clone()),
            None => None,
        };
        WithData { data, rest: self.rest.clone_entity_data(entity) }
    }

    fn remove_entity(&mut self, entity: Entity) {
        self.table.remove(entity);
        self.rest.remove_entity(entity);
    }

    fn remove_entity_data(&mut self, entity: Entity) -> (r: WithData<H, R::EntityData>) {
        let data = self.table.remove(entity);
        let rest = self.rest.remove_entity_data(entity);
        WithData { data, rest }
    }

    fn insert_entity_data(&mut self, entity: Entity, entity_data: WithData<H, R::EntityData>) {
        let WithData { data, rest } = entity_data;
        if let Some(v) = data {
            self.table.insert(entity, v);
        }
        self.rest.insert_entity_data(entity, rest);
    }

    fn update_entity_data(&mut self, entity: Entity, entity_data: WithData<H, R::EntityData>) {
        let WithData { data, rest } = entity_data;
        match data {
            Some(v) => {
                self.table.insert(entity, v);
            },
            None => {
                self.table.remove(entity);
            },
        }
        self.rest.update_entity_data(entity, rest);
    }

    open spec fn earliest(&self, e: Entity, bound: u64) -> u64 {
        due_within(self.table@, e, self.rest.earliest(e, bound))
    }

    open spec fn none_due_before(&self, e: Entity, t: u64) -> bool {
        (self.table@.contains_key(e) ==> t <= self.table@[e].until_next_tick)
            && self.rest.none_due_before(e, t)
    }

    open spec fn stepped(
        &self,
        next: &Self,
        e: Entity,
        elapsed: u64,
        events: WithEvent<H, R::EntityEvents>,
    ) -> bool {
        kind_stepped(self.table@, next.table@, e, elapsed, events.event)
            && self.rest.stepped(&next.rest, e, elapsed, events.rest)
    }

    proof fn lemma_none_due_before_mono(&self, e: Entity, t: u64, u: u64) {
        self.rest.lemma_none_due_before_mono(e, t, u);
    }

    proof fn lemma_earliest_at_least(&self, e: Entity, bound: u64, t: u64) {
        self.rest.lemma_earliest_at_least(e, bound, t);
    }

    fn earliest_due(&self, e: Entity, bound: u64) -> (r: u64) {
        let rest = self.rest.earliest_due(e, bound);
        let r = self.table.earliest_due(e, rest);
        proof {
            self.rest.lemma_none_due_before_mono(e, rest, r);
        }
        r
    }

    fn advance_all(&mut self, e: Entity, elapsed: u64) -> (r: WithEvent<H, R::EntityEvents>) {
        let event = self.table.advance(e, elapsed);
        let rest = self.rest.advance_all(e, elapsed);
        WithEvent { event, rest }
    }
}

/// A component whose delay is zero, as after a plain `insert`, fires in the next step of
/// its entity: that step takes no time, emits its event once, and leaves it with the
/// state and delay that its tick returned.
pub proof fn lemma_due_now_fires<C, H: RealtimeComponentApplyEvent<C> + Clone, R: RealtimeComponents<C>>(
    kinds: WithComponent<H, R>,
    next: WithComponent<H, R>,
    e: Entity,
    frame_remaining: u64,
    events: WithEvent<H, R::EntityEvents>,
)
    requires
        kinds.table@.contains_key(e),
        kinds.table@[e].until_next_tick == 0,
        kinds.stepped(&next, e, kinds.earliest(e, frame_remaining), events),
    ensures
        kinds.earliest(e, frame_remaining) == 0,
        events.event is Some,
        kinds.table@[e].component.ticked(
            &next.table@[e].component,
            events.event->Some_0,
            next.table@[e].until_next_tick,
        ),
{
}

/// Two kinds whose components of `e` share the delay `d`, with `d` within the frame and
/// no other component of `e` due sooner, fire together in one step, each emitting its
/// event.
pub proof fn lemma_tied_kinds_fire_together<
    C,
    A: RealtimeComponentApplyEvent<C> + Clone,
    B: RealtimeComponentApplyEvent<C> + Clone,
    R: RealtimeComponents<C>,
>(
    kinds: WithComponent<A, WithComponent<B, R>>,
    next: WithComponent<A, WithComponent<B, R>>,
    e: Entity,
    d: u64,
    frame_remaining: u64,
    events: WithEvent<A, WithEvent<B, R::EntityEvents>>,
)
    requires
        kinds.table@.contains_key(e),
        kinds.rest.table@.contains_key(e),
        kinds.table@[e].until_next_tick == d,
        kinds.rest.table@[e].until_next_tick == d,
        d <= frame_remaining,
        kinds.rest.rest.none_due_before(e, d),
        kinds.stepped(&next, e, kinds.earliest(e, frame_remaining), events),
    ensures
        kinds.earliest(e, frame_remaining) == d,
        events.event is Some,
        events.rest.event is Some,
        kinds.table@[e].component.ticked(
            &next.table@[e].component,
            events.event->Some_0,
            next.table@[e].until_next_tick,
        ),
        kinds.rest.table@[e].component.ticked(
            &next.rest.table@[e].component,
            events.rest.event->Some_0,
            next.rest.table@[e].until_next_tick,
        ),
{
    kinds.rest.rest.lemma_earliest_at_least(e, frame_remaining, d);
}

} // verus!
