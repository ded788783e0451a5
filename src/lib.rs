//! Server core of a room-based, turn-based card game: keyed tables that
//! report every committed change, the room lifecycle, the game engine and
//! the sliding expiry of login tokens.

pub mod database;
pub mod game;
pub mod gateway;
pub mod runtime_storage;
