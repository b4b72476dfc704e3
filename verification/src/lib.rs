//! A grid-based snake game core: board model, movement, collision, growth
//! and food placement, with machine-checked contracts for every step of the
//! simulation. Rendering and windowing are left to the host program.
pub mod game;
pub mod laws;
