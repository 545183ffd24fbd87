//! Progression engine of an incremental clicker game: cooldown timers, the
//! hand/clicker entity arenas, the event log, the cost and multiplier model,
//! and the controller that applies player intents tick by tick.
//!
//! - `timer`: single-shot cooldowns on integer nanoseconds.
//! - `store`: hands and the clickers they own, addressed by never-reused ids.
//! - `events`: the per-tick queue of emitted amounts.
//! - `economy`: exact costs, multipliers and prestige thresholds.
//! - `game`: the controller, specified as transitions on `GameView`.
//! - `laws`: properties that relate several of those transitions.
pub mod economy;
pub mod error;
pub mod events;
pub mod game;
pub mod laws;
mod radix;
pub mod store;
pub mod timer;
