//! Patched-conics simulation core: a hierarchy of gravitational fields, the
//! relative states that move between their frames, and a time-ordered queue
//! of collision and field-transition events.
pub mod math;
pub mod orbit;
pub mod body;
pub mod tree;
pub mod event;
pub mod system;
