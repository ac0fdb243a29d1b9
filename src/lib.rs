//! The simulation core of a turn-based text adventure: a graph of rooms
//! joined by directional paths, the items and enemies in them, and the
//! player who walks, fights and carries things.
//!
//! Every command resolves in one call and reports its outcome as text;
//! commands that cannot take effect say so and change nothing. Only a
//! missing current room, a broken graph, is reported as an error.

pub mod text;
pub mod entity;
pub mod player;
pub mod room;
pub mod world;
pub mod laws;

pub use entity::{Enemy, Item, Path};
pub use player::Player;
pub use room::Room;
pub use world::{CmdResult, World, WorldError};
