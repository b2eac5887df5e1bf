//! Session hub for synchronized watch parties: room-name sanitizing,
//! room and client registries, playback-state merging, message routing
//! and the per-connection state machine, with the authentication settings
//! and origin allow-list around them.

pub mod auth;
pub mod clients;
pub mod clock;
pub mod connection;
pub mod hub;
pub mod messages;
pub mod origins;
pub mod playback;
pub mod rooms;
pub mod text;

pub use auth::{Claims, JwtConfig};
pub use clock::now_ms;
pub use text::sanitize_room_name;
