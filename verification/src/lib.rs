//! Spawn scheduling for a small arena game: a repeating timer decides when a
//! new pickup is due, rejection sampling finds it a place clear of every
//! tracked entity, and each pickup ages out after a fixed lifetime.
//!
//! Coordinates and times are integers. The host chooses the scale (grid steps
//! per world unit, clock ticks per second) and converts at its boundary.

pub mod geometry;
pub mod movement;
pub mod pickup;
pub mod sampler;
pub mod scheduler;
pub mod timer;
