//! The playback engine: the clock, the shared state, and when pictures are
//! shown.

pub mod clock;
pub mod engine;
pub mod presenter;
pub mod state;

pub use self::engine::PlayerEngine;
