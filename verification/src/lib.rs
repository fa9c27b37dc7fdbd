//! A tick-driven snake simulation on a fixed grid.
//!
//! The crate holds the whole state of one game in [`game::Game`] and advances it
//! one update cycle at a time. Every function is verified against a
//! mathematical model of the state, [`model::GameView`].

pub mod grid;
pub mod timer;
pub mod store;
pub mod model;
pub mod wellformed;
pub mod random;
pub mod game;
pub mod laws;
