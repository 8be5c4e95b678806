//! A turn-driven quest lifecycle engine for a guild of heroes: a global turn
//! counter and per-quest countdown timers, a quest state machine, outcome
//! resolution from hero levels against quest difficulty, and reward
//! distribution with a notification log.
pub mod clock;
pub mod cycle;
pub mod entity;
pub mod events;
pub mod laws;
pub mod lifecycle;
pub mod model;
pub mod percent;
pub mod random;
pub mod rewards;
pub mod text;
pub mod world;
