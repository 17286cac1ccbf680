//! A small 2D arcade-shooter simulation: one player, homing enemies, and
//! player-fired bullets, advanced one frame at a time.
//!
//! All coordinates, speeds and times are fixed-point integers: one world
//! unit is `game::SCALE` coordinate units, and one second is `game::SCALE`
//! time units.  Every step of the per-frame update (bullet integration,
//! homing, collision damage, enemy removal) is specified exactly over
//! mathematical integers and verified.

pub mod game;
pub mod geom;
pub mod laws;
pub mod vec2;
