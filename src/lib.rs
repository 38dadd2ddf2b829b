//! Per-entity multi-rate event scheduling over sparse component tables.
//!
//! Each component kind has a [`RealtimeComponentTable`] from entity to component and
//! the time, in nanoseconds, until that component fires next. A fixed list of kinds
//! is a chain of [`WithComponent`] ending in [`NoComponents`]; one call of
//! `tick_entity` advances one entity to its next due moment, within what is left of a
//! frame, firing every component due at that moment.
pub mod kinds;
pub mod entity_slots;
pub mod table;

pub use entity_table::Entity;
pub use kinds::{
    process_entity_step, ContextContainsRealtimeComponents, NoComponents, NoData, NoEvents,
    RealtimeComponents, RealtimeEntityEvents, WithComponent, WithData, WithEvent,
};
pub use table::{
    RealtimeComponent, RealtimeComponentApplyEvent, RealtimeComponentTable,
    ScheduledRealtimeComponent,
};
