//! Verified session engine for a multiplayer maze game.
//!
//! The library covers the parts of the game server whose correctness is
//! subtle: maze generation (with a proof that every open cell is reachable
//! from the start cell), the movement rules shared by server and client,
//! the player registry, the broadcast hub that fans player updates out to
//! every connection, and the session protocol built on top of them.
//! Transport, terminal rendering and task plumbing live outside the library.

pub mod cell;
pub mod client;
pub mod dict;
pub mod direction;
pub mod generate;
pub mod hub;
pub mod maze;
pub mod movement;
pub mod player;
pub mod policy;
pub mod proto;
pub mod registry;
pub mod render;
pub mod rooms;
pub mod session;
pub mod wire;

pub use cell::CellType;
pub use direction::Direction;
pub use maze::Maze;
pub use movement::Position;
