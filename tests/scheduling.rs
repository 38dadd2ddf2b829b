use entity_table::{Entity, EntityAllocator};
use entity_table_realtime::{
    process_entity_step, ContextContainsRealtimeComponents, NoComponents, NoData,
    RealtimeComponent, RealtimeComponentApplyEvent, RealtimeComponentTable, RealtimeComponents,
    ScheduledRealtimeComponent, WithComponent, WithData,
};

const MS: u64 = 1_000_000;

#[derive(Clone, Debug, PartialEq)]
struct Periodic {
    name: char,
    period: u64,
    fired: u32,
}

impl RealtimeComponent for Periodic {
    type Event = char;

    fn tick(&mut self) -> (char, u64) {
        self.fired += 1;
        (self.name, self.period)
    }
}

type Kinds = WithComponent<Periodic, WithComponent<Periodic, NoComponents>>;

struct Ctx {
    components: Kinds,
    log: Vec<(u64, char)>,
    now: u64,
    steps: u64,
}

impl RealtimeComponentApplyEvent<Ctx> for Periodic {
    fn apply_event(event: char, _entity: Entity, context: &mut Ctx) {
        let step = context.steps;
        context.log.push((step, event));
    }
}

impl ContextContainsRealtimeComponents for Ctx {
    type Components = Kinds;

    fn components_mut(&mut self) -> &mut Kinds {
        &mut self.components
    }
}

fn periodic(name: char, period: u64) -> Periodic {
    Periodic { name, period, fired: 0 }
}

fn two_kinds(e: Entity, a: u64, b: u64) -> Kinds {
    let mut first = RealtimeComponentTable::new();
    first.insert(e, periodic('A', a));
    let mut second = RealtimeComponentTable::new();
    second.insert(e, periodic('B', b));
    WithComponent { table: first, rest: WithComponent { table: second, rest: NoComponents } }
}

fn run_frame(ctx: &mut Ctx, e: Entity, frame: u64) -> usize {
    let mut remaining = frame;
    let mut steps = 0;
    while remaining > 0 {
        let before = remaining;
        remaining = process_entity_step(e, remaining, ctx);
        ctx.now += before - remaining;
        ctx.steps += 1;
        steps += 1;
    }
    steps
}

#[test]
fn two_rates_over_one_frame() {
    let mut alloc = EntityAllocator::default();
    let e = alloc.alloc();
    let mut ctx = Ctx { components: two_kinds(e, 100 * MS, 50 * MS), log: Vec::new(), now: 0, steps: 0 };
    let steps = run_frame(&mut ctx, e, 120 * MS);
    assert_eq!(steps, 4);
    assert_eq!(ctx.now, 120 * MS);
    assert_eq!(
        ctx.log,
        vec![(0, 'A'), (0, 'B'), (1, 'B'), (2, 'A'), (2, 'B')]
    );
    let a = ctx.components.table.get_with_schedule(e).unwrap();
    assert_eq!(a.until_next_tick, 80 * MS);
    let b = ctx.components.rest.table.get_with_schedule(e).unwrap();
    assert_eq!(b.until_next_tick, 30 * MS);
}

#[test]
fn tick_entity_fires_tied_kinds_together() {
    let mut alloc = EntityAllocator::default();
    let e = alloc.alloc();
    let mut kinds = two_kinds(e, 30, 30);
    let (events, elapsed) = RealtimeComponents::<Ctx>::tick_entity(&mut kinds, e, 10);
    assert_eq!(elapsed, 0);
    assert_eq!(events.event, Some('A'));
    assert_eq!(events.rest.event, Some('B'));
    let (events, elapsed) = RealtimeComponents::<Ctx>::tick_entity(&mut kinds, e, 100);
    assert_eq!(elapsed, 30);
    assert_eq!(events.event, Some('A'));
    assert_eq!(events.rest.event, Some('B'));
}

fn delays(kinds: &Kinds, e: Entity) -> (Option<u64>, Option<u64>) {
    (
        kinds.table.get_with_schedule(e).map(|r| r.until_next_tick),
        kinds.rest.table.get_with_schedule(e).map(|r| r.until_next_tick),
    )
}

fn tick(kinds: &mut Kinds, e: Entity, remaining: u64) -> (Option<char>, Option<char>, u64) {
    let (events, elapsed) = RealtimeComponents::<Ctx>::tick_entity(kinds, e, remaining);
    (events.event, events.rest.event, elapsed)
}

#[test]
fn fresh_insert_fires_in_next_step() {
    let mut alloc = EntityAllocator::default();
    let e = alloc.alloc();
    let mut kinds: Kinds = RealtimeComponents::<Ctx>::empty();
    kinds.rest.table.insert(e, periodic('B', 40));
    assert_eq!(tick(&mut kinds, e, 15), (None, Some('B'), 0));
    assert_eq!(tick(&mut kinds, e, 15), (None, None, 15));
    kinds.table.insert(e, periodic('A', 70));
    assert_eq!(tick(&mut kinds, e, 15), (Some('A'), None, 0));
    assert_eq!(kinds.table.get(e).unwrap().fired, 1);
    assert_eq!(delays(&kinds, e), (Some(70), Some(25)));
}

#[test]
fn elapsed_bounded_by_frame_and_delays() {
    let mut alloc = EntityAllocator::default();
    let e = alloc.alloc();
    let mut kinds = two_kinds(e, 300, 200);
    assert_eq!(tick(&mut kinds, e, 1000), (Some('A'), Some('B'), 0));
    assert_eq!(tick(&mut kinds, e, 1000), (None, Some('B'), 200));
    assert_eq!(delays(&kinds, e), (Some(100), Some(200)));
    assert_eq!(tick(&mut kinds, e, 60), (None, None, 60));
    assert_eq!(delays(&kinds, e), (Some(40), Some(140)));
}

#[test]
fn no_components_take_whole_frame() {
    let mut alloc = EntityAllocator::default();
    let e = alloc.alloc();
    let other = alloc.alloc();
    let mut kinds = two_kinds(other, 5, 5);
    assert_eq!(tick(&mut kinds, e, 123), (None, None, 123));
    assert_eq!(delays(&kinds, other), (Some(0), Some(0)));
    let mut none = NoComponents;
    let (_, elapsed) = RealtimeComponents::<Ctx>::tick_entity(&mut none, e, 9);
    assert_eq!(elapsed, 9);
}

#[test]
fn tied_delays_fire_together_mid_frame() {
    let mut alloc = EntityAllocator::default();
    let e = alloc.alloc();
    let mut kinds: Kinds = RealtimeComponents::<Ctx>::empty();
    kinds.table.insert_with_schedule(e, ScheduledRealtimeComponent { component: periodic('A', 9), until_next_tick: 25 });
    kinds.rest.table.insert_with_schedule(e, ScheduledRealtimeComponent { component: periodic('B', 4), until_next_tick: 25 });
    assert_eq!(tick(&mut kinds, e, 25), (Some('A'), Some('B'), 25));
    assert_eq!(delays(&kinds, e), (Some(9), Some(4)));
}

#[test]
fn split_frames_match_one_frame() {
    let mut alloc = EntityAllocator::default();
    let e = alloc.alloc();
    let mut whole = Ctx { components: two_kinds(e, 100 * MS, 50 * MS), log: Vec::new(), now: 0, steps: 0 };
    run_frame(&mut whole, e, 120 * MS);
    let mut split = Ctx { components: two_kinds(e, 100 * MS, 50 * MS), log: Vec::new(), now: 0, steps: 0 };
    let mut times = Vec::new();
    for frame in [30 * MS, 20 * MS, 45 * MS, 25 * MS] {
        run_frame(&mut split, e, frame);
        times.push(split.now);
    }
    assert_eq!(times, vec![30 * MS, 50 * MS, 95 * MS, 120 * MS]);
    let names = |c: &Ctx| c.log.iter().map(|(_, n)| *n).collect::<String>();
    assert_eq!(names(&whole), names(&split));
    assert_eq!(delays(&whole.components, e), delays(&split.components, e));
    assert_eq!(delays(&split.components, e), (Some(80 * MS), Some(30 * MS)));
}

#[test]
fn snapshot_round_trip_schedules_alike() {
    let mut alloc = EntityAllocator::default();
    let e = alloc.alloc();
    let mut original = two_kinds(e, 100, 50);
    let mut source = two_kinds(e, 100, 50);
    let data = RealtimeComponents::<Ctx>::remove_entity_data(&mut source, e);
    assert!(!source.table.contains(e));
    assert!(!source.rest.table.contains(e));
    assert_eq!(data.data.as_ref().map(|c| c.name), Some('A'));
    let mut restored: Kinds = RealtimeComponents::<Ctx>::empty();
    RealtimeComponents::<Ctx>::insert_entity_data(&mut restored, e, data);
    for frame in [70, 70, 70] {
        let mut a = Vec::new();
        let mut b = Vec::new();
        let mut left = frame;
        while left > 0 {
            let step = tick(&mut original, e, left);
            a.push(step);
            left -= step.2;
        }
        let mut left = frame;
        while left > 0 {
            let step = tick(&mut restored, e, left);
            b.push(step);
            left -= step.2;
        }
        assert_eq!(a, b);
    }
    assert_eq!(delays(&original, e), delays(&restored, e));
}

#[test]
fn entity_data_insert_update_remove() {
    let mut alloc = EntityAllocator::default();
    let e = alloc.alloc();
    let mut kinds = two_kinds(e, 10, 20);
    RealtimeComponents::<Ctx>::tick_entity(&mut kinds, e, 5);
    let only_b = WithData { data: None, rest: WithData { data: Some(periodic('C', 3)), rest: NoData } };
    RealtimeComponents::<Ctx>::insert_entity_data(&mut kinds, e, only_b);
    assert_eq!(delays(&kinds, e), (Some(10), Some(0)));
    assert_eq!(kinds.rest.table.get(e).unwrap().name, 'C');
    let only_a = WithData { data: Some(periodic('D', 3)), rest: WithData { data: None, rest: NoData } };
    RealtimeComponents::<Ctx>::update_entity_data(&mut kinds, e, only_a);
    assert_eq!(delays(&kinds, e), (Some(0), None));
    RealtimeComponents::<Ctx>::remove_entity(&mut kinds, e);
    assert_eq!(delays(&kinds, e), (None, None));
    let f = alloc.alloc();
    kinds.table.insert(f, periodic('A', 1));
    RealtimeComponents::<Ctx>::clear(&mut kinds);
    assert!(kinds.table.is_empty());
    assert!(kinds.rest.table.is_empty());
}

#[test]
fn events_apply_in_declared_order() {
    let mut alloc = EntityAllocator::default();
    let e = alloc.alloc();
    let mut ctx = Ctx { components: RealtimeComponents::<Ctx>::empty(), log: Vec::new(), now: 0, steps: 0 };
    ctx.components.rest.table.insert(e, periodic('B', 10));
    ctx.components.table.insert_with_schedule(e, ScheduledRealtimeComponent { component: periodic('A', 10), until_next_tick: 10 });
    assert_eq!(process_entity_step(e, 30, &mut ctx), 30);
    ctx.steps += 1;
    assert_eq!(process_entity_step(e, 30, &mut ctx), 20);
    assert_eq!(ctx.log, vec![(0, 'B'), (1, 'A'), (1, 'B')]);
}

#[test]
fn clone_entity_data_copies_present_kinds() {
    let mut alloc = EntityAllocator::default();
    let e = alloc.alloc();
    let mut kinds: Kinds = RealtimeComponents::<Ctx>::empty();
    kinds.rest.table.insert(e, periodic('B', 7));
    let data = RealtimeComponents::<Ctx>::clone_entity_data(&kinds, e);
    assert!(data.data.is_none());
    assert_eq!(data.rest.data, Some(periodic('B', 7)));
    assert!(kinds.rest.table.contains(e));
}

#[test]
fn fired_record_takes_delay_from_tick() {
    let mut alloc = EntityAllocator::default();
    let e = alloc.alloc();
    let mut kinds = two_kinds(e, 333, 444);
    assert_eq!(tick(&mut kinds, e, 1), (Some('A'), Some('B'), 0));
    assert_eq!(delays(&kinds, e), (Some(333), Some(444)));
    assert_eq!(kinds.table.get(e).unwrap().fired, 1);
}
