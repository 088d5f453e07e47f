//! A two-player territory game on a square grid. Two circular players bounce across
//! the screen; a player whose footprint reaches a cell of the other player takes
//! that cell and turns back on that axis.
//!
//! Space is measured in whole length units (`game::UNITS_PER_PIXEL` to a pixel),
//! time in ticks (`game::TICKS_PER_SECOND` to a second), and direction components
//! in fixed point (`game::DIRECTION_ONE` stands for one).
//!
//! - `board`: the ownership grid and the scan that claims the first enemy cell of a box.
//! - `geometry`: points and the circle/rectangle overlap test.
//! - `game`: players, the simulation state and its per-frame step.
//! - `dynamics`: what every step guarantees, proved over the model of `game`.
//! - `render`: the draw calls that show a state.
pub mod board;
pub mod dynamics;
pub mod game;
pub mod geometry;
pub mod render;
