//! Playlists: their entries, the order in which they are played, and the M3U
//! format in which they are stored.

pub mod item;
pub mod m3u;
pub mod order;

pub use self::item::{PlaylistItem, RepeatMode};
pub use self::m3u::parse_m3u_content;
pub use self::order::Playlist;
