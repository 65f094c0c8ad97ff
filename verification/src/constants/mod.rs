//! Known Halo Infinite identifiers.
pub mod playlists;

pub use playlists::PlaylistId;
