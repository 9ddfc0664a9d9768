//! Instant-replay capture core: a rolling buffer of overlapping recorded
//! chunks, the planner that cuts a clip of an exact length out of it, and the
//! decisions of the double-buffered capture scheduler.

pub mod audio;
pub mod buffer;
pub mod chunk;
pub mod commands;
pub mod kapture;
pub mod marker;
pub mod state;
pub mod utils;
