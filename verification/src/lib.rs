//! The update core of a single-screen endless runner.
//!
//! A player rectangle jumps over obstacle rectangles that enter at the right
//! edge of the screen and travel left. The simulation advances one tick per
//! frame; a shell around it delivers jump requests and paints what the
//! accessors hand out.
//!
//! All coordinates and speeds are fixed-point integers (see [`world`]), so a
//! run is reproducible to the last bit.

pub mod obstacle;
pub mod player;
mod random;
pub mod simulation;
pub mod world;
