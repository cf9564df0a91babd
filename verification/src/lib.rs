//! The session and state core of a tile-grid game server: grid geometry, the
//! tile map, per-player movement, and the per-tick coordinator.

pub mod commons;
pub mod game_map;
pub mod map_server;
pub mod messages;
pub mod player;
pub mod socket;
pub mod tick_laws;
pub mod two_way_range;
pub mod vector2;
