//! A verified engine for a turn-based multiplayer snake game on a toroidal
//! grid, together with the session logic that feeds buffered directional
//! input into the running game once per cycle.

pub mod game;
pub mod geom;
pub mod player;
mod rng;
pub mod session;

pub use game::{Actor, Game, GameMode};
pub use geom::Vector2;
pub use player::{Player, POINTS_PER_KILL};
pub use session::{Mention, Session, StartError};
