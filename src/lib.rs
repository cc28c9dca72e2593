//! Authoritative shared state for a set of connected clients.
//!
//! Clients speak a line protocol (`PLAYER:<id>`, `UPDATE:<x>,<y>`); each connection
//! is a [`session::WsSession`] that turns frames into [`world::Command`]s; the
//! [`store::GameServer`] applies them one at a time to the world and, after each,
//! addresses a `STATE:` snapshot to every registered session. A small Game of Life
//! board ([`life::GameOfLife`]) stands beside it.
pub mod life;
pub mod protocol;
pub mod session;
pub mod store;
pub mod world;

pub use life::GameOfLife;
pub use protocol::{decode, echo, encode_state, frame_state, state_json, ClientMessage, DecodeError, EncodeError};
pub use session::{Inbound, Phase, Reaction, WsSession};
pub use store::{Broadcast, GameServer, Registry};
pub use world::{Command, GameState, Position};
