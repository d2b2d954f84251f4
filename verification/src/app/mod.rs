//! The application: what the controls of the interface do to the playlist, the
//! settings and the session.

pub mod equalizer;
pub mod filter;
pub mod groups;
pub mod listing;
pub mod marks;
pub mod session;
pub mod sidecar;
pub mod tick;
pub mod tracks;

pub use self::session::App;
