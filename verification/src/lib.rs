//! Core of a multiplayer maze-exploration game: the radar-view codec, message
//! framing, the team registry of the server and the map builder of the client.

pub mod base64;
pub mod enums;
pub mod errors;
pub mod framing;
pub mod functions;
pub mod game_engine;
pub mod game_engine_old;
pub mod grid_map;
pub mod maze;
pub mod radar_grid;
pub mod radar_view;
pub mod server;
pub mod structs;
pub mod team_secrets;
